//! Scanning text: splitting on white space and reading decimal digits.

use vstd::prelude::*;
use vstd::string::StrSliceExecFns;

verus! {

/// Unicode's `White_Space` property, which `char::is_whitespace` follows.
pub open spec fn is_white_space(c: char) -> bool {
    let u = c as u32;
    ||| 0x09 <= u <= 0x0D
    ||| u == 0x20
    ||| u == 0x85
    ||| u == 0xA0
    ||| u == 0x1680
    ||| 0x2000 <= u <= 0x200A
    ||| u == 0x2028
    ||| u == 0x2029
    ||| u == 0x202F
    ||| u == 0x205F
    ||| u == 0x3000
}

pub open spec fn is_digit(c: char) -> bool {
    '0' <= c <= '9'
}

pub open spec fn digit_value(c: char) -> nat {
    (c as u32 - '0' as u32) as nat
}

pub open spec fn all_digits(w: Seq<char>) -> bool {
    forall|i: int| 0 <= i < w.len() ==> is_digit(#[trigger] w[i])
}

/// The number that a string of decimal digits spells.
pub open spec fn digits_value(w: Seq<char>) -> nat
    decreases w.len(),
{
    if w.len() == 0 {
        0
    } else {
        digits_value(w.drop_last()) * 10 + digit_value(w.last())
    }
}

/// An unsigned decimal as Rust's `from_str` reads it: an optional `+`, then one
/// or more digits, at most `max`.
pub open spec fn parse_unsigned(w: Seq<char>, max: nat) -> Option<nat> {
    let body = if w.len() > 0 && w[0] == '+' {
        w.drop_first()
    } else {
        w
    };
    if body.len() > 0 && all_digits(body) && digits_value(body) <= max {
        Some(digits_value(body))
    } else {
        None
    }
}

/// Words so far, and the word being read, after scanning `s`.
pub open spec fn scan_words(s: Seq<char>) -> (Seq<Seq<char>>, Seq<char>)
    decreases s.len(),
{
    if s.len() == 0 {
        (Seq::empty(), Seq::empty())
    } else {
        let (ws, cur) = scan_words(s.drop_last());
        let c = s.last();
        if is_white_space(c) {
            if cur.len() > 0 {
                (ws.push(cur), Seq::empty())
            } else {
                (ws, cur)
            }
        } else {
            (ws, cur.push(c))
        }
    }
}

/// The maximal runs of non-white-space characters of `s`, in order.
pub open spec fn words(s: Seq<char>) -> Seq<Seq<char>> {
    let (ws, cur) = scan_words(s);
    if cur.len() > 0 {
        ws.push(cur)
    } else {
        ws
    }
}

pub open spec fn views(v: Seq<Vec<char>>) -> Seq<Seq<char>> {
    v.map_values(|w: Vec<char>| w@)
}

pub fn is_digit_char(c: char) -> (r: bool)
    ensures
        r == is_digit(c),
{
    '0' <= c && c <= '9'
}

/// The run of digits at the end of `s` (empty when `s` ends otherwise).
pub open spec fn trailing_digits(s: Seq<char>) -> Seq<char>
    decreases s.len(),
{
    if s.len() > 0 && is_digit(s.last()) {
        trailing_digits(s.drop_last()).push(s.last())
    } else {
        Seq::empty()
    }
}

/// The last run of digits in `s` (empty when `s` holds no digit).
pub open spec fn last_digit_run(s: Seq<char>) -> Seq<char>
    decreases s.len(),
{
    if s.len() == 0 {
        Seq::empty()
    } else if is_digit(s.last()) {
        trailing_digits(s)
    } else {
        last_digit_run(s.drop_last())
    }
}

/// The bounds `(start, end)` of the last run of digits in `chars`.
pub fn find_last_digit_run(chars: &Vec<char>) -> (r: (usize, usize))
    ensures
        r.0 <= r.1 <= chars@.len(),
        chars@.subrange(r.0 as int, r.1 as int) == last_digit_run(chars@),
{
    let mut end = chars.len();
    assert(chars@.subrange(0, end as int) =~= chars@);
    while end > 0 && !is_digit_char(chars[end - 1])
        invariant
            end <= chars@.len(),
            last_digit_run(chars@.subrange(0, end as int)) == last_digit_run(chars@),
        decreases end,
    {
        assert(chars@.subrange(0, end as int).drop_last() =~= chars@.subrange(0, end - 1));
        end = end - 1;
    }
    let mut start = end;
    while start > 0 && is_digit_char(chars[start - 1])
        invariant
            start <= end <= chars@.len(),
            trailing_digits(chars@.subrange(0, end as int)) == trailing_digits(
                chars@.subrange(0, start as int),
            ) + chars@.subrange(start as int, end as int),
        decreases start,
    {
        let ghost p = chars@.subrange(0, start as int);
        assert(p.drop_last() =~= chars@.subrange(0, start - 1));
        assert(chars@.subrange(start - 1, end as int) =~= seq![p.last()] + chars@.subrange(
            start as int,
            end as int,
        ));
        assert(trailing_digits(p) == trailing_digits(p.drop_last()).push(p.last()));
        assert(trailing_digits(p.drop_last()).push(p.last()) + chars@.subrange(start as int, end as int)
            =~= trailing_digits(p.drop_last()) + chars@.subrange(start - 1, end as int));
        start = start - 1;
    }
    assert(trailing_digits(chars@.subrange(0, start as int)) == Seq::<char>::empty());
    assert(Seq::<char>::empty() + chars@.subrange(start as int, end as int) =~= chars@.subrange(
        start as int,
        end as int,
    ));
    (start, end)
}

proof fn lemma_trailing_digits_are_digits(s: Seq<char>)
    ensures
        all_digits(trailing_digits(s)),
    decreases s.len(),
{
    if s.len() > 0 && is_digit(s.last()) {
        lemma_trailing_digits_are_digits(s.drop_last());
        let t = trailing_digits(s);
        assert forall|i: int| 0 <= i < t.len() implies is_digit(#[trigger] t[i]) by {
            if i < t.len() - 1 {
                assert(t[i] == trailing_digits(s.drop_last())[i]);
            }
        }
    }
}

/// The last run of digits holds digits only.
pub proof fn lemma_last_digit_run_is_digits(s: Seq<char>)
    ensures
        all_digits(last_digit_run(s)),
    decreases s.len(),
{
    if s.len() > 0 {
        if is_digit(s.last()) {
            lemma_trailing_digits_are_digits(s);
        } else {
            lemma_last_digit_run_is_digits(s.drop_last());
        }
    }
}

pub fn is_white_space_char(c: char) -> (r: bool)
    ensures
        r == is_white_space(c),
{
    let u = c as u32;
    (0x09 <= u && u <= 0x0D) || u == 0x20 || u == 0x85 || u == 0xA0 || u == 0x1680 || (0x2000 <= u
        && u <= 0x200A) || u == 0x2028 || u == 0x2029 || u == 0x202F || u == 0x205F || u == 0x3000
}

/// The characters of `s`, in order.
pub fn chars_of(s: &str) -> (r: Vec<char>)
    ensures
        r@ == s@,
{
    let n = s.unicode_len();
    let mut r: Vec<char> = Vec::new();
    let mut i: usize = 0;
    while i < n
        invariant
            n == s@.len(),
            i <= n,
            r@ == s@.subrange(0, i as int),
        decreases n - i,
    {
        let c = s.get_char(i);
        r.push(c);
        i = i + 1;
        assert(r@ =~= s@.subrange(0, i as int));
    }
    assert(r@ =~= s@);
    r
}

/// Splits `chars` into its white-space-separated words.
pub fn split_words(chars: &Vec<char>) -> (r: Vec<Vec<char>>)
    ensures
        views(r@) == words(chars@),
{
    let n = chars.len();
    let mut ws: Vec<Vec<char>> = Vec::new();
    let mut cur: Vec<char> = Vec::new();
    let mut i: usize = 0;
    while i < n
        invariant
            n == chars@.len(),
            i <= n,
            scan_words(chars@.subrange(0, i as int)) == (views(ws@), cur@),
        decreases n - i,
    {
        let c = chars[i];
        let ghost prefix = chars@.subrange(0, i as int + 1);
        assert(prefix.drop_last() =~= chars@.subrange(0, i as int));
        if is_white_space_char(c) {
            if cur.len() > 0 {
                let ghost old_ws = ws@;
                let ghost word = cur@;
                ws.push(cur);
                cur = Vec::new();
                assert(views(ws@) =~= views(old_ws).push(word));
            }
        } else {
            cur.push(c);
        }
        i = i + 1;
    }
    assert(chars@.subrange(0, n as int) =~= chars@);
    if cur.len() > 0 {
        let ghost old_ws = ws@;
        let ghost word = cur@;
        ws.push(cur);
        assert(views(ws@) =~= views(old_ws).push(word));
    }
    ws
}

proof fn lemma_digits_prefix(w: Seq<char>, k: int)
    requires
        all_digits(w),
        0 <= k <= w.len(),
    ensures
        digits_value(w.subrange(0, k)) <= digits_value(w),
    decreases w.len(),
{
    if k < w.len() {
        let p = w.drop_last();
        assert(all_digits(p)) by {
            assert forall|i: int| 0 <= i < p.len() implies is_digit(#[trigger] p[i]) by {
                assert(p[i] == w[i]);
            }
        }
        lemma_digits_prefix(p, k);
        assert(p.subrange(0, k) =~= w.subrange(0, k));
    } else {
        assert(w.subrange(0, k) =~= w);
    }
}

/// Reads `w[start..end]` as an unsigned decimal of digits only: `Some` of its
/// value when it is one or more digits worth at most `max`.
pub fn parse_digits(w: &Vec<char>, start: usize, end: usize, max: u64) -> (r: Option<u64>)
    requires
        start <= end <= w@.len(),
    ensures
        ({
            let body = w@.subrange(start as int, end as int);
            if body.len() > 0 && all_digits(body) && digits_value(body) <= max {
                r == Some(digits_value(body) as u64)
            } else {
                r is None
            }
        }),
{
    let ghost body = w@.subrange(start as int, end as int);
    if start == end {
        return None;
    }
    let mut acc: u64 = 0;
    let mut j: usize = start;
    while j < end
        invariant
            start < end <= w@.len(),
            body == w@.subrange(start as int, end as int),
            start <= j <= end,
            all_digits(body.subrange(0, j - start)),
            acc == digits_value(body.subrange(0, j - start)),
            acc <= max,
        decreases end - j,
    {
        let c = w[j];
        let ghost next = body.subrange(0, j - start + 1);
        assert(next.drop_last() =~= body.subrange(0, j - start));
        assert(next.last() == c);
        if !('0' <= c && c <= '9') {
            assert(!is_digit(body[j - start]));
            return None;
        }
        let d = (c as u32 - '0' as u32) as u64;
        if acc <= max / 10 {
            assert(acc * 10 <= max) by (nonlinear_arith)
                requires
                    acc <= max / 10,
            ;
        }
        if acc > max / 10 || d > max || acc * 10 > max - d {
            assert(acc * 10 + d > max) by (nonlinear_arith)
                requires
                    acc > max / 10 || d > max || acc * 10 > max - d,
                    d <= 9,
            ;
            proof {
                if all_digits(body) {
                    lemma_digits_prefix(body, j - start + 1);
                }
            }
            return None;
        }
        acc = acc * 10 + d;
        j = j + 1;
        assert(all_digits(body.subrange(0, j - start))) by {
            assert forall|i: int| 0 <= i < next.len() implies is_digit(#[trigger] next[i]) by {
                if i < next.len() - 1 {
                    assert(next[i] == body.subrange(0, j - start - 1)[i]);
                }
            }
        }
    }
    assert(body.subrange(0, body.len() as int) =~= body);
    Some(acc)
}

} // verus!
