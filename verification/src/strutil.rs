//! Small verified helpers over `&str` and its `Seq<char>` view.

use vstd::prelude::*;
use vstd::string::StrSliceExecFns;

verus! {

/// Whether a character counts as alphanumeric under Unicode's general
/// categories. The result depends on the character alone.
pub uninterp spec fn is_unicode_alphanumeric(c: char) -> bool;

/// Relies on `char::is_alphanumeric`: the Unicode alphanumeric test.
#[verifier::external_body]
pub fn char_alnum(c: char) -> (r: bool)
    ensures
        r == is_unicode_alphanumeric(c),
{
    c.is_alphanumeric()
}

/// Whether a character counts as whitespace under Unicode. The result
/// depends on the character alone.
pub uninterp spec fn is_unicode_whitespace(c: char) -> bool;

/// Relies on `char::is_whitespace`: the Unicode whitespace test.
#[verifier::external_body]
pub fn char_ws(c: char) -> (r: bool)
    ensures
        r == is_unicode_whitespace(c),
{
    c.is_whitespace()
}

/// Character-wise equality of two string slices, decided against their views.
pub fn str_eq(a: &str, b: &str) -> (r: bool)
    ensures
        r == (a@ == b@),
{
    let n = a.unicode_len();
    let m = b.unicode_len();
    if n != m {
        return false;
    }
    let mut i: usize = 0;
    while i < n
        invariant
            i <= n,
            n == a@.len(),
            n == b@.len(),
            forall|j: int| 0 <= j < i ==> a@[j] == b@[j],
        decreases n - i,
    {
        let ca = a.get_char(i);
        let cb = b.get_char(i);
        if ca != cb {
            return false;
        }
        i += 1;
    }
    proof {
        assert(a@ =~= b@);
    }
    true
}

/// `n` occurs as a contiguous run inside `h`.
pub open spec fn seq_contains(h: Seq<char>, n: Seq<char>) -> bool {
    exists|k: int| 0 <= k && k + n.len() <= h.len() && #[trigger] h.subrange(k, k + n.len()) == n
}

/// Whether `needle` occurs as a substring of `hay`, by characters.
pub fn str_contains(hay: &str, needle: &str) -> (r: bool)
    ensures
        r == seq_contains(hay@, needle@),
{
    let hlen = hay.unicode_len();
    let nlen = needle.unicode_len();
    if nlen == 0 {
        proof {
            assert(hay@.subrange(0, 0 + needle@.len() as int) =~= needle@);
        }
        return true;
    }
    if nlen > hlen {
        return false;
    }
    let mut k: usize = 0;
    while k <= hlen - nlen
        invariant
            hlen == hay@.len(),
            nlen == needle@.len(),
            nlen >= 1,
            nlen <= hlen,
            k <= hlen - nlen + 1,
            forall|k2: int|
                0 <= k2 < k ==> #[trigger] hay@.subrange(k2, k2 + needle@.len()) != needle@,
        decreases hlen - k,
    {
        let mut j: usize = 0;
        let mut matched = true;
        while j < nlen
            invariant
                hlen == hay@.len(),
                nlen == needle@.len(),
                k + nlen <= hlen,
                j <= nlen,
                matched ==> forall|t: int| 0 <= t < j ==> hay@[k + t] == needle@[t],
                !matched ==> hay@.subrange(k as int, k + needle@.len()) != needle@,
            decreases nlen - j,
        {
            if matched {
                let ch = hay.get_char(k + j);
                let cn = needle.get_char(j);
                if ch != cn {
                    proof {
                        assert(hay@.subrange(k as int, k + needle@.len())[j as int] == hay@[k + j]);
                    }
                    matched = false;
                }
            }
            j += 1;
        }
        if matched {
            proof {
                assert(hay@.subrange(k as int, k + needle@.len()) =~= needle@);
            }
            return true;
        }
        k += 1;
    }
    proof {
        assert(k == hlen - nlen + 1);
        if seq_contains(hay@, needle@) {
            let k2 = choose|k2: int|
                0 <= k2 && k2 + needle@.len() <= hay@.len() && #[trigger] hay@.subrange(
                    k2,
                    k2 + needle@.len(),
                ) == needle@;
            assert(k2 < k);
            assert(false);
        }
    }
    false
}

/// Whether some character of `s` is `c`.
pub fn str_contains_char(s: &str, c: char) -> (r: bool)
    ensures
        r == exists|i: int| 0 <= i < s@.len() && s@[i] == c,
{
    let n = s.unicode_len();
    let mut i: usize = 0;
    while i < n
        invariant
            i <= n,
            n == s@.len(),
            forall|j: int| 0 <= j < i ==> s@[j] != c,
        decreases n - i,
    {
        if s.get_char(i) == c {
            return true;
        }
        i += 1;
    }
    false
}

/// `p` is a prefix of `s`.
pub open spec fn seq_starts_with(s: Seq<char>, p: Seq<char>) -> bool {
    p.len() <= s.len() && s.subrange(0, p.len() as int) == p
}

/// Whether `prefix` begins `s`, by characters.
pub fn str_starts_with(s: &str, prefix: &str) -> (r: bool)
    ensures
        r == seq_starts_with(s@, prefix@),
{
    let slen = s.unicode_len();
    let plen = prefix.unicode_len();
    if plen > slen {
        return false;
    }
    let mut j: usize = 0;
    while j < plen
        invariant
            slen == s@.len(),
            plen == prefix@.len(),
            plen <= slen,
            j <= plen,
            forall|t: int| 0 <= t < j ==> s@[t] == prefix@[t],
        decreases plen - j,
    {
        let cs = s.get_char(j);
        let cp = prefix.get_char(j);
        if cs != cp {
            proof {
                assert(s@.subrange(0, prefix@.len() as int)[j as int] == s@[j as int]);
            }
            return false;
        }
        j += 1;
    }
    proof {
        assert(s@.subrange(0, prefix@.len() as int) =~= prefix@);
    }
    true
}

/// The count of leading whitespace characters of `s`.
pub open spec fn leading_ws_count(s: Seq<char>) -> int
    decreases s.len(),
{
    if s.len() == 0 {
        0
    } else if is_unicode_whitespace(s[0]) {
        1 + leading_ws_count(s.drop_first())
    } else {
        0
    }
}

/// The count of trailing whitespace characters of `s`.
pub open spec fn trailing_ws_count(s: Seq<char>) -> int
    decreases s.len(),
{
    if s.len() == 0 {
        0
    } else if is_unicode_whitespace(s[s.len() - 1]) {
        1 + trailing_ws_count(s.drop_last())
    } else {
        0
    }
}

/// `s` with Unicode whitespace stripped from both ends.
pub open spec fn trim_view(s: Seq<char>) -> Seq<char> {
    if leading_ws_count(s) == s.len() {
        Seq::empty()
    } else {
        s.subrange(leading_ws_count(s), s.len() - trailing_ws_count(s))
    }
}

proof fn lemma_leading_ws_count(s: Seq<char>, a: int)
    requires
        0 <= a <= s.len(),
        forall|i: int| 0 <= i < a ==> is_unicode_whitespace(#[trigger] s[i]),
        a < s.len() ==> !is_unicode_whitespace(s[a]),
    ensures
        leading_ws_count(s) == a,
    decreases s.len(),
{
    if s.len() == 0 {
    } else if a == 0 {
    } else {
        assert forall|i: int| 0 <= i < a - 1 implies is_unicode_whitespace(
            #[trigger] s.drop_first()[i],
        ) by {
            assert(s.drop_first()[i] == s[i + 1]);
        }
        if a - 1 < s.drop_first().len() {
            assert(s.drop_first()[a - 1] == s[a]);
        }
        lemma_leading_ws_count(s.drop_first(), a - 1);
    }
}

proof fn lemma_trailing_ws_count(s: Seq<char>, b: int)
    requires
        0 <= b <= s.len(),
        forall|i: int| b <= i < s.len() ==> is_unicode_whitespace(#[trigger] s[i]),
        b > 0 ==> !is_unicode_whitespace(s[b - 1]),
    ensures
        trailing_ws_count(s) == s.len() - b,
    decreases s.len(),
{
    if s.len() == 0 {
    } else if b == s.len() {
    } else {
        assert(is_unicode_whitespace(s[s.len() - 1]));
        assert forall|i: int| b <= i < s.drop_last().len() implies is_unicode_whitespace(
            #[trigger] s.drop_last()[i],
        ) by {
            assert(s.drop_last()[i] == s[i]);
        }
        if b > 0 {
            assert(s.drop_last()[b - 1] == s[b - 1]);
        }
        lemma_trailing_ws_count(s.drop_last(), b);
    }
}

/// Strips Unicode whitespace from both ends of `s`.
pub fn str_trim(s: &str) -> (r: String)
    ensures
        r@ == trim_view(s@),
{
    let n = s.unicode_len();
    let mut a: usize = 0;
    while a < n && char_ws(s.get_char(a))
        invariant
            a <= n,
            n == s@.len(),
            forall|i: int| 0 <= i < a ==> is_unicode_whitespace(#[trigger] s@[i]),
        decreases n - a,
    {
        a += 1;
    }
    if a == n {
        proof {
            lemma_leading_ws_count(s@, a as int);
        }
        let empty = String::new();
        return empty;
    }
    proof {
        lemma_leading_ws_count(s@, a as int);
    }
    let mut b: usize = n;
    while b > a && char_ws(s.get_char(b - 1))
        invariant
            a < n,
            n == s@.len(),
            a <= b <= n,
            !is_unicode_whitespace(s@[a as int]),
            forall|i: int| b <= i < n ==> is_unicode_whitespace(#[trigger] s@[i]),
        decreases b,
    {
        b -= 1;
    }
    proof {
        assert(b > a);
        assert(!is_unicode_whitespace(s@[b - 1]));
        lemma_trailing_ws_count(s@, b as int);
    }
    let piece = s.substring_char(a, b);
    String::from_str(piece)
}

/// The index of the first character satisfying `p`, or the length if
/// none does.
pub open spec fn first_matching(s: Seq<char>, p: spec_fn(char) -> bool) -> int
    decreases s.len(),
{
    if s.len() == 0 {
        0
    } else if p(s[0]) {
        0
    } else {
        1 + first_matching(s.drop_first(), p)
    }
}

pub proof fn lemma_first_matching_bounds(s: Seq<char>, p: spec_fn(char) -> bool)
    ensures
        0 <= first_matching(s, p) <= s.len(),
    decreases s.len(),
{
    if s.len() > 0 && !p(s[0]) {
        lemma_first_matching_bounds(s.drop_first(), p);
    }
}

/// `first_matching` is the position of the first separator: everything
/// before `i` is not one, and `i` itself is one unless the end was
/// reached.
pub proof fn lemma_first_matching_at(s: Seq<char>, p: spec_fn(char) -> bool, i: int)
    requires
        0 <= i <= s.len(),
        forall|j: int| 0 <= j < i ==> !p(s[j]),
        i < s.len() ==> p(s[i]),
    ensures
        first_matching(s, p) == i,
    decreases s.len(),
{
    if s.len() == 0 {
    } else if i == 0 {
    } else {
        assert forall|j: int| 0 <= j < i - 1 implies !p(s.drop_first()[j]) by {
            assert(s.drop_first()[j] == s[j + 1]);
        }
        if i - 1 < s.drop_first().len() {
            assert(s.drop_first()[i - 1] == s[i]);
        }
        lemma_first_matching_at(s.drop_first(), p, i - 1);
    }
}

/// The maximal runs of characters between separators, empty runs
/// dropped.
pub open spec fn nonempty_segments(s: Seq<char>, p: spec_fn(char) -> bool) -> Seq<Seq<char>>
    decreases s.len(),
    via nonempty_segments_decreases
{
    if s.len() == 0 {
        Seq::empty()
    } else if p(s[0]) {
        nonempty_segments(s.drop_first(), p)
    } else {
        let k = first_matching(s, p);
        seq![s.subrange(0, k)] + nonempty_segments(s.skip(k), p)
    }
}

#[via_fn]
proof fn nonempty_segments_decreases(s: Seq<char>, p: spec_fn(char) -> bool) {
    if s.len() > 0 && !p(s[0]) {
        lemma_first_matching_bounds(s.drop_first(), p);
        assert(first_matching(s, p) >= 1);
    }
}

/// Splits `s` at the characters on which `f` answers true, dropping
/// empty runs; `f` must decide the ghost predicate `p`.
pub fn split_segments<F: Fn(char) -> bool>(s: &str, f: F, Ghost(p): Ghost<spec_fn(char) -> bool>) -> (r:
    Vec<String>)
    requires
        forall|c: char| #[trigger] f.requires((c,)),
        forall|c: char, b: bool| #[trigger] f.ensures((c,), b) ==> b == p(c),
    ensures
        r@.map_values(|x: String| x@) == nonempty_segments(s@, p),
{
    let n = s.unicode_len();
    let mut out: Vec<String> = Vec::new();
    let mut pos: usize = 0;
    proof {
        assert(s@.skip(0) =~= s@);
        assert(out@.map_values(|x: String| x@) + nonempty_segments(s@, p) =~= nonempty_segments(
            s@,
            p,
        ));
    }
    while pos < n
        invariant
            forall|c: char| #[trigger] f.requires((c,)),
            forall|c: char, b: bool| #[trigger] f.ensures((c,), b) ==> b == p(c),
            pos <= n,
            n == s@.len(),
            nonempty_segments(s@, p) == out@.map_values(|x: String| x@) + nonempty_segments(
                s@.skip(pos as int),
                p,
            ),
        decreases n - pos,
    {
        let c = s.get_char(pos);
        if f(c) {
            proof {
                let tail = s@.skip(pos as int);
                assert(tail[0] == c);
                assert(tail.drop_first() =~= s@.skip(pos + 1));
            }
            pos += 1;
        } else {
            let ghost head_map: Seq<Seq<char>> = out@.map_values(|x: String| x@);
            let start = pos;
            pos += 1;
            while pos < n && !f(s.get_char(pos))
                invariant
                    forall|c2: char| #[trigger] f.requires((c2,)),
                    forall|c2: char, b: bool| #[trigger] f.ensures((c2,), b) ==> b == p(c2),
                    n == s@.len(),
                    start < pos <= n,
                    forall|j: int| start <= j < pos ==> !p(s@[j]),
                decreases n - pos,
            {
                pos += 1;
            }
            proof {
                let tail = s@.skip(start as int);
                let k = (pos - start) as int;
                assert forall|j: int| 0 <= j < k implies !p(tail[j]) by {
                    assert(tail[j] == s@[start + j]);
                }
                if k < tail.len() {
                    assert(tail[k] == s@[pos as int]);
                }
                lemma_first_matching_at(tail, p, k);
                assert(tail.subrange(0, k) =~= s@.subrange(start as int, pos as int));
                assert(tail.skip(k) =~= s@.skip(pos as int));
            }
            let piece = s.substring_char(start, pos);
            out.push(String::from_str(piece));
            proof {
                let seg = s@.subrange(start as int, pos as int);
                assert(out@.map_values(|x: String| x@) =~= head_map.push(seg));
                assert(head_map.push(seg) + nonempty_segments(s@.skip(pos as int), p) =~= head_map
                    + (seq![seg] + nonempty_segments(s@.skip(pos as int), p)));
            }
        }
    }
    proof {
        assert(s@.skip(n as int).len() == 0);
        assert(out@.map_values(|x: String| x@) + nonempty_segments(s@.skip(n as int), p)
            =~= out@.map_values(|x: String| x@));
    }
    out
}

/// The numeric value of a run of decimal digits.
pub open spec fn dec_value(s: Seq<char>) -> int
    decreases s.len(),
{
    if s.len() == 0 {
        0
    } else {
        dec_value(s.drop_last()) * 10 + (s[s.len() - 1] as u32 - 48)
    }
}

/// A non-empty run of ASCII decimal digits.
pub open spec fn all_dec_digits(s: Seq<char>) -> bool {
    s.len() > 0 && forall|i: int| 0 <= i < s.len() ==> 48 <= #[trigger] s[i] as u32 <= 57
}

/// What `str::parse::<u32>` accepts: an optional leading plus sign, then
/// decimal digits whose value fits.
pub open spec fn u32_parse_of(s: Seq<char>) -> Option<u32> {
    let body = if s.len() > 0 && s[0] == '+' {
        s.drop_first()
    } else {
        s
    };
    if all_dec_digits(body) && dec_value(body) <= u32::MAX {
        Some(dec_value(body) as u32)
    } else {
        None
    }
}

proof fn lemma_dec_value_nonneg(s: Seq<char>)
    requires
        forall|i: int| 0 <= i < s.len() ==> 48 <= #[trigger] s[i] as u32 <= 57,
    ensures
        dec_value(s) >= 0,
    decreases s.len(),
{
    if s.len() > 0 {
        assert forall|i: int| 0 <= i < s.drop_last().len() implies 48
            <= #[trigger] s.drop_last()[i] as u32 <= 57 by {
            assert(s.drop_last()[i] == s[i]);
        }
        lemma_dec_value_nonneg(s.drop_last());
    }
}

/// Extending a digit run multiplies its value and adds the digit, so
/// values never shrink.
proof fn lemma_dec_value_monotone(s: Seq<char>, i: int)
    requires
        0 <= i <= s.len(),
        forall|j: int| 0 <= j < s.len() ==> 48 <= #[trigger] s[j] as u32 <= 57,
    ensures
        dec_value(s.take(i)) <= dec_value(s),
    decreases s.len() - i,
{
    if i == s.len() {
        assert(s.take(i) =~= s);
    } else {
        assert(s.take(i + 1).drop_last() =~= s.take(i));
        assert(s.take(i + 1)[i] == s[i]);
        assert forall|j: int| 0 <= j < s.take(i).len() implies 48 <= #[trigger] s.take(i)[j] as u32
            <= 57 by {
            assert(s.take(i)[j] == s[j]);
        }
        lemma_dec_value_nonneg(s.take(i));
        assert(dec_value(s.take(i + 1)) == dec_value(s.take(i)) * 10 + (s[i] as u32 - 48));
        assert(dec_value(s.take(i)) <= dec_value(s.take(i + 1))) by (nonlinear_arith)
            requires
                dec_value(s.take(i)) >= 0,
                dec_value(s.take(i + 1)) == dec_value(s.take(i)) * 10 + (s[i] as u32 - 48),
                48 <= s[i] as u32,
        ;
        lemma_dec_value_monotone(s, i + 1);
    }
}

/// Parses an unsigned decimal number as `str::parse::<u32>` would.
pub fn parse_u32(s: &str) -> (r: Option<u32>)
    ensures
        r == u32_parse_of(s@),
{
    let n = s.unicode_len();
    let start: usize = if n > 0 && s.get_char(0) == '+' {
        1
    } else {
        0
    };
    let ghost body: Seq<char> = if s@.len() > 0 && s@[0] == '+' {
        s@.drop_first()
    } else {
        s@
    };
    proof {
        assert(body =~= s@.skip(start as int));
    }
    if start == n {
        // No digits at all.
        return None;
    }
    let mut acc: u32 = 0;
    let mut i: usize = start;
    proof {
        assert(body.take(0) =~= Seq::<char>::empty());
    }
    while i < n
        invariant
            start <= i <= n,
            n == s@.len(),
            start <= 1,
            body == s@.skip(start as int),
            (s@.len() > 0 && s@[0] == '+') ==> start == 1 && body == s@.drop_first(),
            !(s@.len() > 0 && s@[0] == '+') ==> start == 0 && body == s@,
            n - start == body.len(),
            forall|j: int| 0 <= j < i - start ==> 48 <= #[trigger] body[j] as u32 <= 57,
            acc as int == dec_value(body.take(i - start)),
        decreases n - i,
    {
        let c = s.get_char(i);
        let code: u32 = c as u32;
        if code < 48 || code > 57 {
            proof {
                assert(body[i - start] == s@[i as int]);
                assert(!(48 <= body[i - start] as u32 <= 57));
            }
            return None;
        }
        let d: u32 = code - 48;
        proof {
            assert(body[i - start] == s@[i as int]);
            assert(body.take(i - start + 1).drop_last() =~= body.take(i - start));
            assert(body.take(i - start + 1)[i - start] == body[i - start]);
        }
        if acc > (u32::MAX - d) / 10 {
            // The value has outgrown the range. If the rest of the run is
            // digits too, the full value only grows further; if it is not,
            // the parse fails anyway. Either way the answer is nothing.
            proof {
                if all_dec_digits(body) {
                    assert(dec_value(body.take(i - start + 1)) == acc as int * 10 + d);
                    assert(acc as int * 10 + d > u32::MAX) by (nonlinear_arith)
                        requires
                            acc as int > (u32::MAX as int - d as int) / 10,
                            0 <= d <= 9,
                            acc as int >= 0,
                    ;
                    lemma_dec_value_monotone(body, i - start + 1);
                    assert(dec_value(body) > u32::MAX);
                }
            }
            return None;
        }
        acc = acc * 10 + d;
        i += 1;
    }
    proof {
        assert(body.take(body.len() as int) =~= body);
        assert(all_dec_digits(body));
    }
    Some(acc)
}

/// The segment after the last line break, as `str::lines` would report
/// the final line: the optional final `"\n"` does not open a new line,
/// and a `'\r'` before that final `"\n"` is dropped.
pub open spec fn last_line_of(s: Seq<char>) -> Seq<char>
    recommends
        s.len() > 0,
{
    let end = if s[s.len() - 1] == '\n' {
        s.len() - 1
    } else {
        s.len() as int
    };
    let start = last_break_before(s, end);
    let line = s.subrange(start, end);
    if s[s.len() - 1] == '\n' && line.len() > 0 && line[line.len() - 1] == '\r' {
        line.subrange(0, line.len() - 1)
    } else {
        line
    }
}

/// One past the last `'\n'` strictly before `end`, or 0 if none.
pub open spec fn last_break_before(s: Seq<char>, end: int) -> int
    recommends
        0 <= end <= s.len(),
    decreases end,
{
    if end <= 0 {
        0
    } else if s[end - 1] == '\n' {
        end
    } else {
        last_break_before(s, end - 1)
    }
}

/// The final line of `s`, or nothing if `s` is empty.
pub fn str_last_line(s: &str) -> (r: Option<String>)
    ensures
        s@.len() == 0 ==> r is None,
        s@.len() > 0 ==> r is Some && r->0@ == last_line_of(s@),
{
    let n = s.unicode_len();
    if n == 0 {
        return None;
    }
    let end: usize = if s.get_char(n - 1) == '\n' {
        n - 1
    } else {
        n
    };
    let mut start: usize = end;
    while start > 0 && s.get_char(start - 1) != '\n'
        invariant
            n == s@.len(),
            start <= end <= n,
            last_break_before(s@, end as int) == last_break_before(s@, start as int),
        decreases start,
    {
        start -= 1;
    }
    proof {
        if start > 0 {
            assert(s@[start - 1] == '\n');
            assert(last_break_before(s@, start as int) == start);
        }
        assert(last_break_before(s@, end as int) == start);
    }
    let line_end: usize = if end > start && s.get_char(n - 1) == '\n' && s.get_char(end - 1)
        == '\r' {
        end - 1
    } else {
        end
    };
    let piece = s.substring_char(start, line_end);
    let r = String::from_str(piece);
    proof {
        let line = s@.subrange(start as int, end as int);
        if s@[n - 1] == '\n' && line.len() > 0 && line[line.len() - 1] == '\r' {
            assert(line[line.len() - 1] == s@[end - 1]);
            assert(r@ =~= line.subrange(0, line.len() - 1));
        } else {
            assert(r@ =~= line);
        }
    }
    Some(r)
}

} // verus!
