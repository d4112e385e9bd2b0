//! Character-level text handling shared by the whole library: prefixes,
//! substrings, whitespace trimming, splitting, and unsigned decimal numbers.
//!
//! Strings are modelled by their view, a `Seq<char>`.
use vstd::prelude::*;
use vstd::utf8::{char_is_scalar, encode_scalar, encode_utf8};

verus! {

// ---------------------------------------------------------------------------
// Specifications
// ---------------------------------------------------------------------------

/// `p` is a prefix of `s`.
pub open spec fn starts_with(s: Seq<char>, p: Seq<char>) -> bool {
    p.len() <= s.len() && s.subrange(0, p.len() as int) == p
}

/// `p` is a suffix of `s`.
pub open spec fn ends_with(s: Seq<char>, p: Seq<char>) -> bool {
    p.len() <= s.len() && s.subrange(s.len() - p.len(), s.len() as int) == p
}

/// `p` occurs in `s` starting at position `i`.
pub open spec fn occurs_at(s: Seq<char>, p: Seq<char>, i: int) -> bool {
    0 <= i && i + p.len() <= s.len() && s.subrange(i, i + p.len()) == p
}

/// `p` occurs somewhere in `s` (the empty pattern occurs everywhere).
pub open spec fn has_substring(s: Seq<char>, p: Seq<char>) -> bool {
    exists|i: int| occurs_at(s, p, i)
}

/// `c` occurs in `s`.
pub open spec fn has_char(s: Seq<char>, c: char) -> bool {
    exists|i: int| 0 <= i < s.len() && s[i] == c
}

/// Unicode `White_Space`, as `char::is_whitespace` decides it.
pub open spec fn is_whitespace(c: char) -> bool {
    let u = c as u32;
    ||| 0x09 <= u <= 0x0D
    ||| u == 0x20
    ||| u == 0x85
    ||| u == 0xA0
    ||| u == 0x1680
    ||| 0x2000 <= u <= 0x200A
    ||| u == 0x2028
    ||| u == 0x2029
    ||| u == 0x202F
    ||| u == 0x205F
    ||| u == 0x3000
}

/// `s` without its leading characters that satisfy `strip`.
pub open spec fn strip_start(s: Seq<char>, strip: spec_fn(char) -> bool) -> Seq<char>
    decreases s.len(),
{
    if s.len() > 0 && strip(s[0]) {
        strip_start(s.subrange(1, s.len() as int), strip)
    } else {
        s
    }
}

/// `s` without its trailing characters that satisfy `strip`.
pub open spec fn strip_end(s: Seq<char>, strip: spec_fn(char) -> bool) -> Seq<char>
    decreases s.len(),
{
    if s.len() > 0 && strip(s.last()) {
        strip_end(s.drop_last(), strip)
    } else {
        s
    }
}

/// The whitespace test, as a predicate.
pub open spec fn whitespace_pred() -> spec_fn(char) -> bool {
    |c: char| is_whitespace(c)
}

/// The test for one given character, as a predicate.
pub open spec fn char_pred(c: char) -> spec_fn(char) -> bool {
    |x: char| x == c
}

/// `str::trim`: leading and trailing whitespace removed.
pub open spec fn trim(s: Seq<char>) -> Seq<char> {
    strip_end(strip_start(s, whitespace_pred()), whitespace_pred())
}

/// `str::trim_matches(c)`: every leading and trailing `c` removed.
pub open spec fn trim_char(s: Seq<char>, c: char) -> Seq<char> {
    strip_end(strip_start(s, char_pred(c)), char_pred(c))
}

/// `str::trim_start_matches(p)`: the prefix `p` removed as long as it is there.
pub open spec fn strip_prefix_all(s: Seq<char>, p: Seq<char>) -> Seq<char>
    decreases s.len(),
{
    if p.len() > 0 && starts_with(s, p) {
        strip_prefix_all(s.subrange(p.len() as int, s.len() as int), p)
    } else {
        s
    }
}

/// `str::split(c)`: the pieces of `s` between occurrences of `c`, empty
/// pieces included; there is always one more piece than there are `c`s.
pub open spec fn split_on(s: Seq<char>, c: char) -> Seq<Seq<char>>
    decreases s.len(),
{
    if s.len() == 0 {
        seq![Seq::<char>::empty()]
    } else {
        let init = split_on(s.drop_last(), c);
        if s.last() == c {
            init.push(Seq::<char>::empty())
        } else {
            init.update(init.len() - 1, init.last().push(s.last()))
        }
    }
}

/// An ASCII decimal digit.
pub open spec fn is_digit(c: char) -> bool {
    '0' <= c <= '9'
}

/// The value of an ASCII decimal digit.
pub open spec fn digit_value(c: char) -> nat {
    ((c as u32) - ('0' as u32)) as nat
}

/// The decimal digit for `d < 10`.
pub open spec fn digit_char(d: nat) -> char {
    ((d + ('0' as u32)) as u32) as char
}

/// All characters are ASCII decimal digits.
pub open spec fn all_digits(s: Seq<char>) -> bool {
    forall|i: int| 0 <= i < s.len() ==> is_digit(#[trigger] s[i])
}

/// The number that the digits `s` write in base ten.
pub open spec fn decimal_value(s: Seq<char>) -> nat
    decreases s.len(),
{
    if s.len() == 0 {
        0
    } else {
        decimal_value(s.drop_last()) * 10 + digit_value(s.last())
    }
}

/// The digits part of an unsigned number: `s` without one leading `+`.
pub open spec fn unsigned_digits(s: Seq<char>) -> Seq<char> {
    if s.len() > 0 && s[0] == '+' {
        s.subrange(1, s.len() as int)
    } else {
        s
    }
}

/// `str::parse` for an unsigned integer type whose largest value is `max`:
/// an optional `+`, then one or more ASCII digits, whose value is at most `max`.
pub open spec fn parse_unsigned(s: Seq<char>, max: nat) -> Option<nat> {
    let digits = unsigned_digits(s);
    if digits.len() > 0 && all_digits(digits) && decimal_value(digits) <= max {
        Some(decimal_value(digits))
    } else {
        None
    }
}

/// The shortest decimal writing of `n` (`"0"` for zero), as `to_string` gives it.
pub open spec fn decimal(n: nat) -> Seq<char>
    decreases n,
{
    if n < 10 {
        seq![digit_char(n)]
    } else {
        decimal(n / 10).push(digit_char(n % 10))
    }
}

// ---------------------------------------------------------------------------
// Executable text operations
// ---------------------------------------------------------------------------

/// The characters of `s`, in order.
pub fn chars_of(s: &str) -> (r: Vec<char>)
    ensures
        r@ == s@,
{
    let mut r: Vec<char> = Vec::new();
    for c in it: s.chars()
        invariant
            r@ == it.seq().take(it.index()),
            it.seq() == s@,
    {
        r.push(c);
    }
    r
}

/// Whether `p` occurs in `s` at position `i`.
pub fn occurs_at_exec(s: &Vec<char>, p: &Vec<char>, i: usize) -> (b: bool)
    requires
        i + p@.len() <= s@.len(),
    ensures
        b == occurs_at(s@, p@, i as int),
{
    let slen = s.len();
    let mut j: usize = 0;
    while j < p.len()
        invariant
            j <= p@.len(),
            slen == s@.len(),
            i + p@.len() <= s@.len(),
            forall|k: int| 0 <= k < j ==> s@[i + k] == p@[k],
        decreases p@.len() - j,
    {
        if s[i + j] != p[j] {
            assert(s@.subrange(i as int, i + p@.len())[j as int] != p@[j as int]);
            return false;
        }
        j += 1;
    }
    assert(s@.subrange(i as int, i + p@.len()) =~= p@);
    true
}

/// Whether `p` occurs somewhere in `s`.
pub fn has_substring_exec(s: &Vec<char>, p: &Vec<char>) -> (b: bool)
    ensures
        b == has_substring(s@, p@),
{
    if p.len() > s.len() {
        return false;
    }
    if p.len() == 0 {
        assert(s@.subrange(0, 0) =~= p@);
        assert(occurs_at(s@, p@, 0));
        return true;
    }
    let slen = s.len();
    let last = slen - p.len();
    let mut i: usize = 0;
    while i <= last
        invariant
            slen == s@.len(),
            last == s@.len() - p@.len(),
            0 < p@.len() <= s@.len(),
            forall|k: int| 0 <= k < i ==> !occurs_at(s@, p@, k),
        decreases last + 1 - i,
    {
        if occurs_at_exec(s, p, i) {
            return true;
        }
        i += 1;
    }
    assert forall|k: int| !occurs_at(s@, p@, k) by {
        if 0 <= k && k + p@.len() <= s@.len() {
            assert(k <= last);
        }
    }
    false
}

/// `str::contains` with a string pattern.
pub fn str_contains(s: &str, p: &str) -> (b: bool)
    ensures
        b == has_substring(s@, p@),
{
    let sv = chars_of(s);
    let pv = chars_of(p);
    has_substring_exec(&sv, &pv)
}

/// `str::starts_with` with a string pattern.
pub fn str_starts_with(s: &str, p: &str) -> (b: bool)
    ensures
        b == starts_with(s@, p@),
{
    let sv = chars_of(s);
    let pv = chars_of(p);
    if pv.len() > sv.len() {
        return false;
    }
    occurs_at_exec(&sv, &pv, 0)
}

/// `str::ends_with` with a string pattern.
pub fn str_ends_with(s: &str, p: &str) -> (b: bool)
    ensures
        b == ends_with(s@, p@),
{
    let sv = chars_of(s);
    let pv = chars_of(p);
    if pv.len() > sv.len() {
        return false;
    }
    occurs_at_exec(&sv, &pv, sv.len() - pv.len())
}

/// Whether `c` occurs in `s`.
pub fn has_char_exec(s: &Vec<char>, c: char) -> (b: bool)
    ensures
        b == has_char(s@, c),
{
    let mut i: usize = 0;
    while i < s.len()
        invariant
            i <= s@.len(),
            forall|k: int| 0 <= k < i ==> s@[k] != c,
        decreases s@.len() - i,
    {
        if s[i] == c {
            return true;
        }
        i += 1;
    }
    false
}

/// `char::is_whitespace`.
pub fn is_whitespace_exec(c: char) -> (b: bool)
    ensures
        b == is_whitespace(c),
{
    let u = c as u32;
    (0x09 <= u && u <= 0x0D) || u == 0x20 || u == 0x85 || u == 0xA0 || u == 0x1680 || (0x2000
        <= u && u <= 0x200A) || u == 0x2028 || u == 0x2029 || u == 0x202F || u == 0x205F || u
        == 0x3000
}

proof fn lemma_strip_start_step(s: Seq<char>, i: int, strip: spec_fn(char) -> bool)
    requires
        0 <= i < s.len(),
        strip(s[i]),
    ensures
        strip_start(s.subrange(i, s.len() as int), strip) == strip_start(
            s.subrange(i + 1, s.len() as int),
            strip,
        ),
{
    let t = s.subrange(i, s.len() as int);
    assert(t.subrange(1, t.len() as int) =~= s.subrange(i + 1, s.len() as int));
}

proof fn lemma_strip_end_step(s: Seq<char>, i: int, j: int, strip: spec_fn(char) -> bool)
    requires
        0 <= i < j <= s.len(),
        strip(s[j - 1]),
    ensures
        strip_end(s.subrange(i, j), strip) == strip_end(s.subrange(i, j - 1), strip),
{
    let t = s.subrange(i, j);
    assert(t.drop_last() =~= s.subrange(i, j - 1));
}

/// The range `[start, end)` of `s` left after stripping whitespace at both ends.
fn trim_bounds(s: &Vec<char>) -> (r: (usize, usize))
    ensures
        r.0 <= r.1 <= s@.len(),
        s@.subrange(r.0 as int, r.1 as int) == trim(s@),
{
        let n = s.len();
    let mut i: usize = 0;
    assert(s@.subrange(0, n as int) =~= s@);
    while i < n && is_whitespace_exec(s[i])
        invariant
            i <= n,
            n == s@.len(),
            strip_start(s@, whitespace_pred()) == strip_start(s@.subrange(i as int, n as int), whitespace_pred()),
        decreases n - i,
    {
        proof {
                        assert(whitespace_pred()(s@[i as int]));
            lemma_strip_start_step(s@, i as int, whitespace_pred());
        }
        i += 1;
    }
    assert(strip_start(s@, whitespace_pred()) == s@.subrange(i as int, n as int));
    let mut j: usize = n;
    while j > i && is_whitespace_exec(s[j - 1])
        invariant
            i <= j <= n,
            n == s@.len(),
            strip_start(s@, whitespace_pred()) == s@.subrange(i as int, n as int),
            strip_end(s@.subrange(i as int, n as int), whitespace_pred()) == strip_end(
                s@.subrange(i as int, j as int),
                whitespace_pred(),
            ),
        decreases j,
    {
        proof {
            assert(whitespace_pred()(s@[j - 1]));
            lemma_strip_end_step(s@, i as int, j as int, whitespace_pred());
        }
        j -= 1;
    }
    (i, j)
}

/// `str::trim`.
pub fn trim_str(s: &str) -> (r: &str)
    ensures
        r@ == trim(s@),
{
    let v = chars_of(s);
    let (i, j) = trim_bounds(&v);
    s.substring_char(i, j)
}

/// `str::trim_matches(c)`: the range of `s` that is left.
pub fn trim_char_bounds(s: &Vec<char>, c: char) -> (r: (usize, usize))
    ensures
        r.0 <= r.1 <= s@.len(),
        s@.subrange(r.0 as int, r.1 as int) == trim_char(s@, c),
{
        let n = s.len();
    let mut i: usize = 0;
    assert(s@.subrange(0, n as int) =~= s@);
    while i < n && s[i] == c
        invariant
            i <= n,
            n == s@.len(),
            strip_start(s@, char_pred(c)) == strip_start(s@.subrange(i as int, n as int), char_pred(c)),
        decreases n - i,
    {
        proof {
            assert(char_pred(c)(s@[i as int]));
            lemma_strip_start_step(s@, i as int, char_pred(c));
        }
        i += 1;
    }
    assert(strip_start(s@, char_pred(c)) == s@.subrange(i as int, n as int));
    let mut j: usize = n;
    while j > i && s[j - 1] == c
        invariant
            i <= j <= n,
            n == s@.len(),
            strip_start(s@, char_pred(c)) == s@.subrange(i as int, n as int),
            strip_end(s@.subrange(i as int, n as int), char_pred(c)) == strip_end(
                s@.subrange(i as int, j as int),
                char_pred(c),
            ),
        decreases j,
    {
        proof {
            assert(char_pred(c)(s@[j - 1]));
            lemma_strip_end_step(s@, i as int, j as int, char_pred(c));
        }
        j -= 1;
    }
    (i, j)
}

/// The characters of `s` in `[from, to)`, as a new vector.
pub fn sub_chars(s: &Vec<char>, from: usize, to: usize) -> (r: Vec<char>)
    requires
        from <= to <= s@.len(),
    ensures
        r@ == s@.subrange(from as int, to as int),
{
    let mut r: Vec<char> = Vec::new();
    let mut k = from;
    while k < to
        invariant
            from <= k <= to <= s@.len(),
            r@ == s@.subrange(from as int, k as int),
        decreases to - k,
    {
        r.push(s[k]);
        k += 1;
        assert(r@ =~= s@.subrange(from as int, k as int));
    }
    r
}

/// The pieces of `split_on(s, c)`, as ranges of `s`.
pub fn split_ranges(s: &Vec<char>, c: char) -> (r: Vec<(usize, usize)>)
    ensures
        r@.len() == split_on(s@, c).len(),
        forall|k: int| #![trigger r@[k]] 0 <= k < r@.len() ==> r@[k].0 <= r@[k].1 <= s@.len(),
        forall|k: int|
            0 <= k < r@.len() ==> s@.subrange(r@[k].0 as int, r@[k].1 as int) == #[trigger] split_on(
                s@,
                c,
            )[k],
{
    let mut r: Vec<(usize, usize)> = Vec::new();
    let mut start: usize = 0;
    let mut i: usize = 0;
    let n = s.len();
    assert(s@.take(0) =~= Seq::<char>::empty());
    assert(s@.subrange(0, 0) =~= Seq::<char>::empty());
    while i < n
        invariant
            n == s@.len(),
            start <= i <= n,
            r@.len() + 1 == split_on(s@.take(i as int), c).len(),
            forall|k: int| #![trigger r@[k]] 0 <= k < r@.len() ==> r@[k].0 <= r@[k].1 <= n,
            forall|k: int|
                0 <= k < r@.len() ==> s@.subrange(r@[k].0 as int, r@[k].1 as int)
                    == #[trigger] split_on(s@.take(i as int), c)[k],
            s@.subrange(start as int, i as int) == split_on(s@.take(i as int), c).last(),
        decreases n - i,
    {
        let ghost old_r = r@;
        let ghost old_start = start;
        let ghost pre = split_on(s@.take(i as int), c);
        let ghost t = s@.take(i + 1);
        assert(t.drop_last() =~= s@.take(i as int));
        assert(t.last() == s@[i as int]);
        if s[i] == c {
            assert(split_on(t, c) == pre.push(Seq::<char>::empty()));
            r.push((start, i));
            start = i + 1;
            i += 1;
            assert(t == s@.take(i as int));
            assert(s@.subrange(start as int, i as int) =~= Seq::<char>::empty());
            assert forall|k: int| #![trigger r@[k]] 0 <= k < r@.len() implies r@[k].0 <= r@[k].1 <= n by {
                if k < old_r.len() {
                    assert(r@[k] == old_r[k]);
                }
            }
            assert forall|k: int| 0 <= k < r@.len() implies s@.subrange(
                r@[k].0 as int,
                r@[k].1 as int,
            ) == #[trigger] split_on(t, c)[k] by {
                if k < old_r.len() {
                    assert(r@[k] == old_r[k]);
                    assert(split_on(t, c)[k] == pre[k]);
                    assert(old_r[k].0 <= old_r[k].1 <= n);
                } else {
                    assert(r@[k] == (old_start, (i - 1) as usize));
                    assert(split_on(t, c)[k] == pre.last());
                }
            }
        } else {
            assert(split_on(t, c) == pre.update(pre.len() - 1, pre.last().push(s@[i as int])));
            i += 1;
            assert(t == s@.take(i as int));
            assert(s@.subrange(start as int, i as int) =~= s@.subrange(
                start as int,
                i - 1,
            ).push(s@[i - 1]));
            assert forall|k: int| #![trigger r@[k]] 0 <= k < r@.len() implies r@[k].0 <= r@[k].1 <= n by {
                assert(r@[k] == old_r[k]);
            }
            assert forall|k: int| 0 <= k < r@.len() implies s@.subrange(
                r@[k].0 as int,
                r@[k].1 as int,
            ) == #[trigger] split_on(t, c)[k] by {
                assert(split_on(t, c)[k] == pre[k]);
            }
        }
    }
    assert(s@.take(n as int) =~= s@);
    let ghost before = r@;
    r.push((start, n));
    assert forall|k: int| #![trigger r@[k]] 0 <= k < r@.len() implies r@[k].0 <= r@[k].1 <= s@.len() by {
        if k < r@.len() - 1 {
            assert(r@[k] == before[k]);
        }
    }
    assert forall|k: int| 0 <= k < r@.len() implies s@.subrange(r@[k].0 as int, r@[k].1 as int)
        == #[trigger] split_on(s@, c)[k] by {
        if k < r@.len() - 1 {
            assert(r@[k] == before[k]);
            assert(split_on(s@.take(n as int), c)[k] == split_on(s@, c)[k]);
        }
    }
    r
}

/// The characters of `s` in `[from, to)` are ASCII digits; their value as
/// `str::parse::<usize>` reads it (an optional `+`, then digits), or `None`.
pub fn parse_usize_range(s: &Vec<char>, from: usize, to: usize) -> (r: Option<usize>)
    requires
        from <= to <= s@.len(),
    ensures
        match parse_unsigned(s@.subrange(from as int, to as int), usize::MAX as nat) {
            Some(v) => r == Some(v as usize),
            None => r is None,
        },
{
    let ghost whole = s@.subrange(from as int, to as int);
    let mut k = from;
    if k < to && s[k] == '+' {
        k += 1;
    }
    let ghost digits = s@.subrange(k as int, to as int);
    assert(digits =~= unsigned_digits(whole));
    if k == to {
        return None;
    }
    let mut acc: usize = 0;
    let start = k;
    let mut overflow = false;
    while k < to
        invariant
            from <= start <= k <= to <= s@.len(),
            digits == s@.subrange(start as int, to as int),
            digits == unsigned_digits(whole),
            whole == s@.subrange(from as int, to as int),
            digits.len() > 0,
            all_digits(s@.subrange(start as int, k as int)),
            !overflow ==> acc as nat == decimal_value(s@.subrange(start as int, k as int)),
            overflow ==> decimal_value(s@.subrange(start as int, k as int)) > usize::MAX,
        decreases to - k,
    {
        let c = s[k];
        if !('0' <= c && c <= '9') {
            assert(digits[k - start] == c);
            return None;
        }
        let d = (c as u32 - '0' as u32) as usize;
        let ghost prev = s@.subrange(start as int, k as int);
        let ghost next = s@.subrange(start as int, k + 1);
        assert(next.drop_last() =~= prev);
        assert(next.last() == c);
        assert(decimal_value(next) == decimal_value(prev) * 10 + d);
        if !overflow {
            match acc.checked_mul(10) {
                Some(m) => match m.checked_add(d) {
                    Some(v) => {
                        acc = v;
                    },
                    None => {
                        overflow = true;
                    },
                },
                None => {
                    assert(decimal_value(prev) * 10 >= decimal_value(prev) * 10);
                    overflow = true;
                },
            }
        } else {
            assert(decimal_value(next) >= decimal_value(prev)) by (nonlinear_arith)
                requires
                    decimal_value(next) == decimal_value(prev) * 10 + d,
            ;
        }
        k += 1;
        assert forall|i: int| 0 <= i < next.len() implies is_digit(#[trigger] next[i]) by {
            if i < prev.len() {
                assert(next[i] == prev[i]);
            }
        }
    }
    assert(s@.subrange(start as int, k as int) == digits);
    if overflow {
        None
    } else {
        Some(acc)
    }
}

/// `str::parse::<usize>`.
pub fn parse_usize(s: &str) -> (r: Option<usize>)
    ensures
        match parse_unsigned(s@, usize::MAX as nat) {
            Some(v) => r == Some(v as usize),
            None => r is None,
        },
{
    let v = chars_of(s);
    assert(v@.subrange(0, v@.len() as int) =~= v@);
    parse_usize_range(&v, 0, v.len())
}

/// The text `"d"` of a single decimal digit.
fn digit_str(d: usize) -> (s: &'static str)
    requires
        d < 10,
    ensures
        s@ == seq![digit_char(d as nat)],
{
    proof {
        reveal_strlit("0");
        reveal_strlit("1");
        reveal_strlit("2");
        reveal_strlit("3");
        reveal_strlit("4");
        reveal_strlit("5");
        reveal_strlit("6");
        reveal_strlit("7");
        reveal_strlit("8");
        reveal_strlit("9");
    }
    let s = if d == 0 {
        "0"
    } else if d == 1 {
        "1"
    } else if d == 2 {
        "2"
    } else if d == 3 {
        "3"
    } else if d == 4 {
        "4"
    } else if d == 5 {
        "5"
    } else if d == 6 {
        "6"
    } else if d == 7 {
        "7"
    } else if d == 8 {
        "8"
    } else {
        "9"
    };
    assert(s@ =~= seq![digit_char(d as nat)]);
    s
}

/// The decimal writing of `n`, as `n.to_string()` gives it.
pub fn decimal_string(n: usize) -> (r: String)
    ensures
        r@ == decimal(n as nat),
    decreases n,
{
    if n < 10 {
        String::from_str(digit_str(n))
    } else {
        let mut r = decimal_string(n / 10);
        r.append(digit_str(n % 10));
        r
    }
}

// ---------------------------------------------------------------------------
// Laws of the decimal numbers
// ---------------------------------------------------------------------------

proof fn lemma_digit_char(d: nat)
    requires
        d < 10,
    ensures
        is_digit(digit_char(d)),
        digit_value(digit_char(d)) == d,
        digit_char(d) != '+',
{
    assert(((d + 48) as u32) as char as u32 == (d + 48) as u32);
}

/// Appending a digit keeps a decimal writing's value at least as large.
proof fn lemma_decimal_value_prefix(s: Seq<char>, i: int)
    requires
        0 <= i <= s.len(),
    ensures
        decimal_value(s.take(i)) <= decimal_value(s),
    decreases s.len() - i,
{
    if i < s.len() {
        lemma_decimal_value_prefix(s, i + 1);
        let t = s.take(i + 1);
        assert(t.drop_last() =~= s.take(i));
        assert(decimal_value(t) == decimal_value(s.take(i)) * 10 + digit_value(t.last()));
    } else {
        assert(s.take(i) =~= s);
    }
}

/// The writing of `n` is all digits, does not start with `+`, and reads back as `n`.
pub proof fn lemma_decimal_reads_back(n: nat)
    ensures
        decimal(n).len() > 0,
        all_digits(decimal(n)),
        decimal_value(decimal(n)) == n,
        decimal(n)[0] != '+',
        is_digit(decimal(n)[0]),
        is_digit(decimal(n).last()),
    decreases n,
{
    if n < 10 {
        assert(decimal(n).drop_last() =~= Seq::<char>::empty());
        assert(decimal_value(Seq::<char>::empty()) == 0);
        assert(decimal(n).last() == digit_char(n));
        lemma_digit_char(n);
    } else {
        lemma_digit_char(n % 10);
        assert(n == (n / 10) * 10 + n % 10) by (nonlinear_arith);
        lemma_decimal_reads_back(n / 10);
        let d = decimal(n);
        assert(decimal_value(decimal(n / 10)) == n / 10);
        assert(d.last() == digit_char(n % 10));
        assert(d.drop_last() =~= decimal(n / 10));
        assert(decimal_value(d) == decimal_value(d.drop_last()) * 10 + digit_value(d.last()));
        assert(d.drop_last() =~= decimal(n / 10));
        assert forall|i: int| 0 <= i < d.len() implies is_digit(#[trigger] d[i]) by {
            if i < d.len() - 1 {
                assert(d[i] == decimal(n / 10)[i]);
            }
        }
        assert(d[0] == decimal(n / 10)[0]);
    }
}

/// `parse_unsigned` reads back what `decimal` writes.
pub proof fn lemma_parse_decimal(n: nat, max: nat)
    requires
        n <= max,
    ensures
        parse_unsigned(decimal(n), max) == Some(n),
{
    lemma_decimal_reads_back(n);
}

// ---------------------------------------------------------------------------
// Laws of splitting
// ---------------------------------------------------------------------------

/// Splitting always yields at least one piece.
pub proof fn lemma_split_nonempty(s: Seq<char>, c: char)
    ensures
        split_on(s, c).len() >= 1,
    decreases s.len(),
{
    if s.len() > 0 {
        lemma_split_nonempty(s.drop_last(), c);
    }
}

/// A text without the separator splits into itself alone.
pub proof fn lemma_split_no_separator(a: Seq<char>, c: char)
    requires
        !has_char(a, c),
    ensures
        split_on(a, c) == seq![a],
    decreases a.len(),
{
    if a.len() == 0 {
        assert(a =~= Seq::<char>::empty());
        assert(split_on(a, c) =~= seq![a]);
    } else {
        let d = a.drop_last();
        assert(!has_char(d, c)) by {
            if has_char(d, c) {
                let i = choose|i: int| 0 <= i < d.len() && d[i] == c;
                assert(a[i] == c);
            }
        }
        lemma_split_no_separator(d, c);
        assert(a.last() != c) by {
            assert(a[a.len() - 1] == a.last());
        }
        assert(d.push(a.last()) =~= a);
        assert(seq![d].last() == d);
        assert(split_on(a, c) == seq![d].update(0, d.push(a.last())));
        assert(split_on(a, c) =~= seq![a]);
    }
}

/// Splitting at a separator splits the two sides independently.
pub proof fn lemma_split_join(a: Seq<char>, b: Seq<char>, c: char)
    ensures
        split_on(a + seq![c] + b, c) == split_on(a, c) + split_on(b, c),
    decreases b.len(),
{
    let s = a + seq![c] + b;
    lemma_split_nonempty(a, c);
    if b.len() == 0 {
        assert(s.drop_last() =~= a);
        assert(s.last() == c);
        assert(split_on(b, c) =~= seq![Seq::<char>::empty()]);
        assert(split_on(s, c) =~= split_on(a, c) + split_on(b, c));
    } else {
        let bd = b.drop_last();
        lemma_split_join(a, bd, c);
        lemma_split_nonempty(bd, c);
        assert(s.drop_last() =~= a + seq![c] + bd);
        assert(s.last() == b.last());
        let left = split_on(a, c);
        let right = split_on(bd, c);
        if b.last() == c {
            assert(split_on(s, c) =~= (left + right).push(Seq::<char>::empty()));
            assert(split_on(b, c) == right.push(Seq::<char>::empty()));
            assert(split_on(s, c) =~= left + split_on(b, c));
        } else {
            let joined = left + right;
            assert(split_on(s, c) == joined.update(joined.len() - 1, joined.last().push(b.last())));
            assert(split_on(b, c) == right.update(right.len() - 1, right.last().push(b.last())));
            assert(joined.last() == right.last());
            assert(split_on(s, c) =~= left + split_on(b, c));
        }
    }
}

// ---------------------------------------------------------------------------
// UTF-8 lengths
// ---------------------------------------------------------------------------

/// The number of bytes of the UTF-8 encoding of `c`.
pub open spec fn utf8_width(c: char) -> nat {
    let u = c as u32;
    if u <= 0x7F {
        1
    } else if u <= 0x7FF {
        2
    } else if u <= 0xFFFF {
        3
    } else {
        4
    }
}

proof fn lemma_encode_scalar_len(c: char)
    ensures
        encode_scalar(c as u32).len() == utf8_width(c),
{
    char_is_scalar(c);
}

proof fn lemma_encode_utf8_push(s: Seq<char>, c: char)
    ensures
        encode_utf8(s.push(c)) == encode_utf8(s) + encode_scalar(c as u32),
    decreases s.len(),
{
    if s.len() == 0 {
        assert(s.push(c).drop_first() =~= Seq::<char>::empty());
        assert(encode_utf8(Seq::<char>::empty()) =~= Seq::<u8>::empty());
        assert(encode_utf8(s) =~= Seq::<u8>::empty());
        assert(encode_utf8(s.push(c)) =~= encode_utf8(s) + encode_scalar(c as u32));
    } else {
        lemma_encode_utf8_push(s.drop_first(), c);
        assert(s.push(c).drop_first() =~= s.drop_first().push(c));
        assert(s.push(c)[0] == s[0]);
        assert(encode_utf8(s.push(c)) =~= encode_utf8(s) + encode_scalar(c as u32));
    }
}

/// Whether the UTF-8 encoding of `s` (what `str::len` counts) is longer than
/// `limit` bytes.
pub fn utf8_len_exceeds(s: &str, limit: usize) -> (b: bool)
    requires
        limit < 0x1000,
    ensures
        b == (encode_utf8(s@).len() > limit),
{
    let v = chars_of(s);
    let mut total: usize = 0;
    let mut i: usize = 0;
    assert(v@.take(0) =~= Seq::<char>::empty());
    while i < v.len()
        invariant
            i <= v@.len(),
            v@ == s@,
            total <= limit < 0x1000,
            total == encode_utf8(v@.take(i as int)).len(),
        decreases v@.len() - i,
    {
        let c = v[i];
        let u = c as u32;
        let w: usize = if u <= 0x7F {
            1
        } else if u <= 0x7FF {
            2
        } else if u <= 0xFFFF {
            3
        } else {
            4
        };
        proof {
            lemma_encode_scalar_len(c);
            assert(v@.take(i + 1) =~= v@.take(i as int).push(c));
            lemma_encode_utf8_push(v@.take(i as int), c);
        }
        total = total + w;
        i += 1;
        if total > limit {
            proof {
                lemma_encode_utf8_prefix_len(v@, i as int);
            }
            return true;
        }
    }
    assert(v@.take(i as int) =~= v@);
    false
}

proof fn lemma_encode_utf8_prefix_len(s: Seq<char>, i: int)
    requires
        0 <= i <= s.len(),
    ensures
        encode_utf8(s.take(i)).len() <= encode_utf8(s).len(),
    decreases s.len() - i,
{
    if i < s.len() {
        lemma_encode_utf8_prefix_len(s, i + 1);
        assert(s.take(i + 1) =~= s.take(i).push(s[i]));
        lemma_encode_utf8_push(s.take(i), s[i]);
    } else {
        assert(s.take(i) =~= s);
    }
}

/// A text takes at least one byte per character in UTF-8.
pub proof fn lemma_encode_utf8_len_at_least(s: Seq<char>)
    ensures
        encode_utf8(s).len() >= s.len(),
    decreases s.len(),
{
    if s.len() > 0 {
        let init = s.drop_last();
        lemma_encode_utf8_len_at_least(init);
        assert(init.push(s.last()) =~= s);
        lemma_encode_utf8_push(init, s.last());
        lemma_encode_scalar_len(s.last());
    }
}

} // verus!
