//! Character-level helpers shared by the parsers and formatters of this crate.
//!
//! Strings are modelled by their `Seq<char>` views; whitespace follows the
//! Unicode `White_Space` property, which is what `char::is_whitespace`,
//! `str::trim` and `str::split_whitespace` use.
use vstd::prelude::*;

verus! {

/// The Unicode `White_Space` code points.
pub open spec fn is_ws(c: char) -> bool {
    let u = c as u32;
    ||| 0x09 <= u <= 0x0D
    ||| u == 0x20
    ||| u == 0x85
    ||| u == 0xA0
    ||| u == 0x1680
    ||| 0x2000 <= u <= 0x200A
    ||| u == 0x2028
    ||| u == 0x2029
    ||| u == 0x202F
    ||| u == 0x205F
    ||| u == 0x3000
}

/// Executable form of [`is_ws`].
pub fn is_whitespace(c: char) -> (r: bool)
    ensures
        r == is_ws(c),
{
    let u = c as u32;
    (0x09 <= u && u <= 0x0D) || u == 0x20 || u == 0x85 || u == 0xA0 || u == 0x1680 || (0x2000
        <= u && u <= 0x200A) || u == 0x2028 || u == 0x2029 || u == 0x202F || u == 0x205F || u
        == 0x3000
}

/// `s` without its leading whitespace.
pub open spec fn trim_start_spec(s: Seq<char>) -> Seq<char>
    decreases s.len(),
{
    if s.len() > 0 && is_ws(s[0]) {
        trim_start_spec(s.drop_first())
    } else {
        s
    }
}

/// `s` without its trailing whitespace.
pub open spec fn trim_end_spec(s: Seq<char>) -> Seq<char>
    decreases s.len(),
{
    if s.len() > 0 && is_ws(s.last()) {
        trim_end_spec(s.drop_last())
    } else {
        s
    }
}

/// `s` without leading and trailing whitespace, as `str::trim` gives it.
pub open spec fn trim_spec(s: Seq<char>) -> Seq<char> {
    trim_end_spec(trim_start_spec(s))
}

/// `s` is made of whitespace only.
pub open spec fn all_ws(s: Seq<char>) -> bool {
    forall|i: int| 0 <= i < s.len() ==> is_ws(#[trigger] s[i])
}

/// Trimming the start removes a whitespace prefix and leaves a suffix that
/// is empty or begins with a non-whitespace character.
pub proof fn lemma_trim_start(s: Seq<char>)
    ensures
        exists|k: int|
            0 <= k <= s.len() && all_ws(#[trigger] s.subrange(0, k)) && trim_start_spec(s)
                == s.subrange(k, s.len() as int),
        trim_start_spec(s).len() == 0 || !is_ws(trim_start_spec(s)[0]),
    decreases s.len(),
{
    if s.len() > 0 && is_ws(s[0]) {
        lemma_trim_start(s.drop_first());
        let k = choose|k: int|
            0 <= k <= s.drop_first().len() && all_ws(#[trigger] s.drop_first().subrange(0, k))
                && trim_start_spec(s.drop_first()) == s.drop_first().subrange(
                k,
                s.drop_first().len() as int,
            );
        assert(all_ws(s.subrange(0, k + 1))) by {
            assert forall|i: int| 0 <= i < k + 1 implies is_ws(#[trigger] s.subrange(0, k + 1)[i]) by {
                if i > 0 {
                    assert(s.subrange(0, k + 1)[i] == s.drop_first().subrange(0, k)[i - 1]);
                }
            }
        }
        assert(s.drop_first().subrange(k, s.drop_first().len() as int) =~= s.subrange(
            k + 1,
            s.len() as int,
        ));
    } else {
        assert(all_ws(s.subrange(0, 0)));
        assert(s.subrange(0, s.len() as int) =~= s);
    }
}

/// Characters of a string slice, in order.
pub fn chars_of(s: &str) -> (v: Vec<char>)
    ensures
        v@ == s@,
{
    let mut v: Vec<char> = Vec::new();
    for c in it: s.chars()
        invariant
            v@ == it.seq().take(it.index() as int),
    {
        v.push(c);
    }
    v
}


/// Appends one character; `String::push`.
#[verifier::external_body]
pub fn push_char(s: &mut String, c: char)
    ensures
        final(s)@ == old(s)@.push(c),
{
    s.push(c)
}

/// A string holding exactly the given characters.
pub fn string_of(chars: &[char]) -> (s: String)
    ensures
        s@ == chars@,
{
    let mut s = String::new();
    let mut i: usize = 0;
    while i < chars.len()
        invariant
            i <= chars@.len(),
            s@ == chars@.subrange(0, i as int),
        decreases chars.len() - i,
    {
        push_char(&mut s, chars[i]);
        assert(chars@.subrange(0, i + 1) =~= chars@.subrange(0, i as int).push(chars@[i as int]));
        i = i + 1;
    }
    assert(chars@.subrange(0, i as int) =~= chars@);
    s
}

/// An owned copy of a string slice.
pub fn owned(s: &str) -> (r: String)
    ensures
        r@ == s@,
{
    s.to_owned()
}

/// The decimal digit character for `d < 10`.
pub open spec fn digit_char(d: nat) -> char {
    if d == 0 {
        '0'
    } else if d == 1 {
        '1'
    } else if d == 2 {
        '2'
    } else if d == 3 {
        '3'
    } else if d == 4 {
        '4'
    } else if d == 5 {
        '5'
    } else if d == 6 {
        '6'
    } else if d == 7 {
        '7'
    } else if d == 8 {
        '8'
    } else {
        '9'
    }
}

/// The shortest decimal representation of `n`, as `to_string` writes an
/// unsigned integer.
pub open spec fn decimal(n: nat) -> Seq<char>
    decreases n,
{
    if n < 10 {
        seq![digit_char(n)]
    } else {
        decimal(n / 10).push(digit_char(n % 10))
    }
}

fn digit(d: u64) -> (c: char)
    requires
        d < 10,
    ensures
        c == digit_char(d as nat),
{
    match d {
        0 => '0',
        1 => '1',
        2 => '2',
        3 => '3',
        4 => '4',
        5 => '5',
        6 => '6',
        7 => '7',
        8 => '8',
        _ => '9',
    }
}

/// Appends the decimal representation of `n`.
pub fn push_decimal(out: &mut String, n: u64)
    ensures
        final(out)@ == old(out)@ + decimal(n as nat),
    decreases n,
{
    if n >= 10 {
        push_decimal(out, n / 10);
    }
    push_char(out, digit(n % 10));
    proof {
        if n >= 10 {
            assert(decimal(n as nat) == decimal((n / 10) as nat).push(digit_char((n % 10) as nat)));
        }
    }
    assert(final(out)@ =~= old(out)@ + decimal(n as nat));
}

/// The decimal representation of `n`; `u64::to_string`.
pub fn decimal_string(n: u64) -> (s: String)
    ensures
        s@ == decimal(n as nat),
{
    let mut s = String::new();
    push_decimal(&mut s, n);
    assert(s@ =~= decimal(n as nat));
    s
}

/// An ASCII decimal digit.
pub open spec fn is_digit(c: char) -> bool {
    '0' <= c <= '9'
}

/// The value of an ASCII decimal digit.
pub open spec fn digit_value(c: char) -> nat {
    ((c as u32) - 48) as nat
}

/// The value of a string of decimal digits (0 for the empty string).
pub open spec fn digits_value(s: Seq<char>) -> nat
    decreases s.len(),
{
    if s.len() == 0 {
        0
    } else {
        digits_value(s.drop_last()) * 10 + digit_value(s.last())
    }
}

/// Every character is a decimal digit.
pub open spec fn all_digits(s: Seq<char>) -> bool {
    forall|i: int| 0 <= i < s.len() ==> is_digit(#[trigger] s[i])
}

/// What `str::parse` gives for an unsigned integer type whose largest value
/// is `max`: an optional `+`, then at least one decimal digit, and a value
/// that fits.
pub open spec fn parse_unsigned(s: Seq<char>, max: nat) -> Option<nat> {
    let d = if s.len() > 0 && s[0] == '+' {
        s.drop_first()
    } else {
        s
    };
    if d.len() > 0 && all_digits(d) && digits_value(d) <= max {
        Some(digits_value(d))
    } else {
        None
    }
}

/// A value never shrinks when digits are appended.
pub proof fn lemma_digits_value_prefix(s: Seq<char>, k: int)
    requires
        0 <= k <= s.len(),
    ensures
        digits_value(s.subrange(0, k)) <= digits_value(s),
    decreases s.len() - k,
{
    if k < s.len() {
        lemma_digits_value_prefix(s, k + 1);
        assert(s.subrange(0, k + 1).drop_last() =~= s.subrange(0, k));
    } else {
        assert(s.subrange(0, k) =~= s);
    }
}

/// Parses an unsigned decimal that must fit in a `u64`; `str::parse::<u64>`.
pub fn parse_u64(s: &[char]) -> (r: Option<u64>)
    ensures
        r matches Some(v) ==> parse_unsigned(s@, u64::MAX as nat) == Some(v as nat),
        r is None ==> parse_unsigned(s@, u64::MAX as nat) is None,
{
    let start: usize = if s.len() > 0 && s[0] == '+' {
        1
    } else {
        0
    };
    let ghost d = if s@.len() > 0 && s@[0] == '+' {
        s@.drop_first()
    } else {
        s@
    };
    assert(d =~= s@.subrange(start as int, s@.len() as int));
    if start >= s.len() {
        return None;
    }
    let mut acc: u64 = 0;
    let mut i: usize = start;
    while i < s.len()
        invariant
            start <= i <= s@.len(),
            d =~= s@.subrange(start as int, s@.len() as int),
            d == (if s@.len() > 0 && s@[0] == '+' { s@.drop_first() } else { s@ }),
            all_digits(s@.subrange(start as int, i as int)),
            acc as nat == digits_value(s@.subrange(start as int, i as int)),
        decreases s.len() - i,
    {
        let c = s[i];
        let ghost pre = s@.subrange(start as int, i as int);
        let ghost next = s@.subrange(start as int, i + 1);
        assert(next.drop_last() =~= pre);
        if !('0' <= c && c <= '9') {
            assert(!is_digit(d[i - start]));
            assert(!all_digits(d));
            assert(d == (if s@.len() > 0 && s@[0] == '+' { s@.drop_first() } else { s@ }));
            assert(parse_unsigned(s@, u64::MAX as nat) is None);
            return None;
        }
        let dv = (c as u32 - 48) as u64;
        assert(dv as nat == digit_value(c));
        let m = acc.checked_mul(10);
        if m.is_none() {
            proof {
                assert(next.last() == c);
                assert(digits_value(next) == digits_value(pre) * 10 + digit_value(c));
                assert(all_digits(next));
                lemma_digits_value_prefix(d, (i + 1 - start) as int);
                assert(d.subrange(0, (i + 1 - start) as int) =~= next);
            }
            return None;
        }
        let m = m.unwrap();
        let v = m.checked_add(dv);
        if v.is_none() {
            proof {
                assert(m as nat + dv as nat > u64::MAX as nat);
                assert(next.last() == c);
                assert(digits_value(next) == digits_value(pre) * 10 + digit_value(c));
                assert(all_digits(next));
                lemma_digits_value_prefix(d, (i + 1 - start) as int);
                assert(d.subrange(0, (i + 1 - start) as int) =~= next);
            }
            return None;
        }
        acc = v.unwrap();
        proof {
            assert(next.last() == c);
            assert(digits_value(next) == digits_value(pre) * 10 + digit_value(c));
            assert(all_digits(next));
        }
        i = i + 1;
    }
    Some(acc)
}

proof fn lemma_digit_char_value(d: nat)
    requires
        d < 10,
    ensures
        is_digit(digit_char(d)),
        digit_value(digit_char(d)) == d,
{
}

/// The decimal representation is made of digits and reads back as `n`.
pub proof fn lemma_decimal_digits(n: nat)
    ensures
        all_digits(decimal(n)),
        digits_value(decimal(n)) == n,
        decimal(n).len() > 0,
        decimal(n)[0] != '+',
    decreases n,
{
    if n >= 10 {
        lemma_decimal_digits(n / 10);
        let t = decimal(n / 10);
        assert(decimal(n).drop_last() =~= t);
        assert(decimal(n)[0] == t[0]);
        lemma_digit_char_value(n % 10);
        assert(decimal(n).last() == digit_char(n % 10));
        assert(digits_value(decimal(n)) == digits_value(t) * 10 + digit_value(digit_char(n % 10)));
        assert(n == (n / 10) * 10 + n % 10);
    } else {
        lemma_digit_char_value(n);
        assert(decimal(n).drop_last() =~= Seq::<char>::empty());
        assert(decimal(n).last() == digit_char(n));
        assert(digits_value(decimal(n)) == digits_value(Seq::<char>::empty()) * 10 + digit_value(digit_char(n)));
    }
}

/// Writing a `u64` in decimal and parsing it back gives the same number.
pub proof fn lemma_parse_decimal_roundtrip(n: u64)
    ensures
        parse_unsigned(decimal(n as nat), u64::MAX as nat) == Some(n as nat),
{
    lemma_decimal_digits(n as nat);
}


/// If `s` starts with `k` whitespace characters followed by a non-whitespace
/// character (or the end), trimming the start leaves the rest.
pub proof fn lemma_trim_start_at(s: Seq<char>, k: int)
    requires
        0 <= k <= s.len(),
        forall|j: int| 0 <= j < k ==> is_ws(#[trigger] s[j]),
        k == s.len() || !is_ws(s[k]),
    ensures
        trim_start_spec(s) == s.subrange(k, s.len() as int),
    decreases k,
{
    if k == 0 {
        assert(s.subrange(0, s.len() as int) =~= s);
    } else {
        let t = s.drop_first();
        assert forall|j: int| 0 <= j < k - 1 implies is_ws(#[trigger] t[j]) by {
            assert(t[j] == s[j + 1]);
        }
        if k < s.len() {
            assert(t[k - 1] == s[k]);
        }
        lemma_trim_start_at(t, k - 1);
        assert(t.subrange(k - 1, t.len() as int) =~= s.subrange(k, s.len() as int));
    }
}

/// If `s` ends with whitespace from `k` on, preceded by a non-whitespace
/// character (or nothing), trimming the end leaves `s[..k]`.
pub proof fn lemma_trim_end_at(s: Seq<char>, k: int)
    requires
        0 <= k <= s.len(),
        forall|j: int| k <= j < s.len() ==> is_ws(#[trigger] s[j]),
        k == 0 || !is_ws(s[k - 1]),
    ensures
        trim_end_spec(s) == s.subrange(0, k),
    decreases s.len() - k,
{
    if k == s.len() {
        assert(s.subrange(0, k) =~= s);
    } else {
        let t = s.drop_last();
        assert forall|j: int| k <= j < t.len() implies is_ws(#[trigger] t[j]) by {
            assert(t[j] == s[j]);
        }
        if k > 0 {
            assert(t[k - 1] == s[k - 1]);
        }
        lemma_trim_end_at(t, k);
        assert(t.subrange(0, k) =~= s.subrange(0, k));
    }
}

/// Bounds `[start, end)` of the trimmed part of `s`.
pub fn trim_bounds(s: &[char]) -> (r: (usize, usize))
    ensures
        r.0 <= r.1 <= s@.len(),
        trim_spec(s@) == s@.subrange(r.0 as int, r.1 as int),
        (r.0 == r.1) == all_ws(s@),
{
    let mut start: usize = 0;
    while start < s.len() && is_whitespace(s[start])
        invariant
            start <= s@.len(),
            forall|j: int| 0 <= j < start ==> is_ws(#[trigger] s@[j]),
        decreases s.len() - start,
    {
        start = start + 1;
    }
    proof {
        lemma_trim_start_at(s@, start as int);
    }
    let mut end: usize = s.len();
    while end > start && is_whitespace(s[end - 1])
        invariant
            start <= end <= s@.len(),
            forall|j: int| end <= j < s@.len() ==> is_ws(#[trigger] s@[j]),
        decreases end,
    {
        end = end - 1;
    }
    proof {
        let t = s@.subrange(start as int, s@.len() as int);
        assert forall|j: int| end - start <= j < t.len() implies is_ws(#[trigger] t[j]) by {
            assert(t[j] == s@[j + start]);
        }
        if end > start {
            assert(t[end - start - 1] == s@[end - 1]);
        }
        lemma_trim_end_at(t, end - start);
        assert(t.subrange(0, end - start) =~= s@.subrange(start as int, end as int));
        if start == end {
            assert forall|j: int| 0 <= j < s@.len() implies is_ws(#[trigger] s@[j]) by {
                if j >= end {
                } else {
                }
            }
        } else {
            assert(!is_ws(s@[start as int]));
        }
    }
    (start, end)
}

/// `s` trimmed; `str::trim`.
pub fn trim_str(s: &str) -> (r: String)
    ensures
        r@ == trim_spec(s@),
{
    let v = chars_of(s);
    let (a, b) = trim_bounds(v.as_slice());
    let mut out = String::new();
    let mut i = a;
    while i < b
        invariant
            a <= i <= b <= v@.len(),
            out@ == v@.subrange(a as int, i as int),
        decreases b - i,
    {
        push_char(&mut out, v[i]);
        assert(v@.subrange(a as int, i + 1) =~= v@.subrange(a as int, i as int).push(v@[i as int]));
        i = i + 1;
    }
    out
}

/// `s` is empty or whitespace only; `s.trim().is_empty()`.
pub fn is_blank(s: &str) -> (r: bool)
    ensures
        r == all_ws(s@),
{
    let v = chars_of(s);
    let (a, b) = trim_bounds(v.as_slice());
    a == b
}


/// Two strings have the same characters.
pub fn same_text(a: &str, b: &str) -> (r: bool)
    ensures
        r == (a@ == b@),
{
    let x = chars_of(a);
    let y = chars_of(b);
    if x.len() != y.len() {
        return false;
    }
    let mut i: usize = 0;
    while i < x.len()
        invariant
            x@ == a@,
            y@ == b@,
            x@.len() == y@.len(),
            i <= x@.len(),
            forall|j: int| 0 <= j < i ==> x@[j] == y@[j],
        decreases x.len() - i,
    {
        if x[i] != y[i] {
            assert(a@[i as int] != b@[i as int]);
            return false;
        }
        i = i + 1;
    }
    assert(x@ =~= y@);
    true
}


/// Appends the characters of `t`.
pub fn push_text(out: &mut String, t: &str)
    ensures
        final(out)@ == old(out)@ + t@,
{
    let v = chars_of(t);
    let mut i: usize = 0;
    while i < v.len()
        invariant
            i <= v@.len(),
            v@ == t@,
            out@ == old(out)@ + v@.subrange(0, i as int),
        decreases v.len() - i,
    {
        push_char(out, v[i]);
        assert(v@.subrange(0, i + 1) =~= v@.subrange(0, i as int).push(v@[i as int]));
        i = i + 1;
    }
    assert(v@.subrange(0, i as int) =~= v@);
}

/// A lowercase hexadecimal digit.
pub open spec fn is_lower_hex(c: char) -> bool {
    ('0' <= c <= '9') || ('a' <= c <= 'f')
}

/// `p` occurs in `v` at position `at`.
pub open spec fn occurs_at(v: Seq<char>, at: int, p: Seq<char>) -> bool {
    0 <= at && at + p.len() <= v.len() && v.subrange(at, at + p.len()) == p
}

/// Tests whether the characters of `p` stand in `v` from position `at`.
pub fn text_at(v: &[char], at: usize, p: &str) -> (r: bool)
    ensures
        r == occurs_at(v@, at as int, p@),
{
    let q = chars_of(p);
    if at > v.len() || q.len() > v.len() - at {
        return false;
    }
    let mut i: usize = 0;
    while i < q.len()
        invariant
            q@ == p@,
            at + q@.len() <= v@.len(),
            v@.len() == v.len(),
            i <= q@.len(),
            forall|j: int| 0 <= j < i ==> v@[at + j] == q@[j],
        decreases q.len() - i,
    {
        if v[at + i] != q[i] {
            assert(v@.subrange(at as int, at + q@.len())[i as int] != q@[i as int]);
            return false;
        }
        i = i + 1;
    }
    assert(v@.subrange(at as int, at + q@.len()) =~= q@);
    true
}

/// Appends `v[a..b]`.
pub fn push_range(out: &mut String, v: &[char], a: usize, b: usize)
    requires
        a <= b <= v@.len(),
    ensures
        final(out)@ == old(out)@ + v@.subrange(a as int, b as int),
{
    let mut i = a;
    while i < b
        invariant
            a <= i <= b <= v@.len(),
            out@ == old(out)@ + v@.subrange(a as int, i as int),
        decreases b - i,
    {
        push_char(out, v[i]);
        assert(v@.subrange(a as int, i + 1) =~= v@.subrange(a as int, i as int).push(v@[i as int]));
        i = i + 1;
    }
}

/// The views of a sequence of character vectors.
pub open spec fn texts(v: Seq<Vec<char>>) -> Seq<Seq<char>> {
    v.map_values(|x: Vec<char>| x@)
}

/// The pieces of `s[i..]` between occurrences of `sep`, the first of them
/// continuing `cur`.
pub open spec fn split_from(s: Seq<char>, sep: char, i: int, cur: Seq<char>) -> Seq<Seq<char>>
    decreases s.len() - i,
{
    if i < 0 || i >= s.len() {
        seq![cur]
    } else if s[i] == sep {
        seq![cur] + split_from(s, sep, i + 1, Seq::empty())
    } else {
        split_from(s, sep, i + 1, cur.push(s[i]))
    }
}

/// The pieces of `s` between occurrences of `sep`; `str::split` with a
/// character pattern.
pub open spec fn split_on(s: Seq<char>, sep: char) -> Seq<Seq<char>> {
    split_from(s, sep, 0, Seq::empty())
}

/// Splitting always gives at least one piece.
pub proof fn lemma_split_nonempty(s: Seq<char>, sep: char, i: int, cur: Seq<char>)
    ensures
        split_from(s, sep, i, cur).len() >= 1,
    decreases s.len() - i,
{
    if 0 <= i < s.len() {
        if s[i] == sep {
            lemma_split_nonempty(s, sep, i + 1, Seq::empty());
        } else {
            lemma_split_nonempty(s, sep, i + 1, cur.push(s[i]));
        }
    }
}

/// Splits `s` at every `sep`.
pub fn split_chars(s: &[char], sep: char) -> (r: Vec<Vec<char>>)
    ensures
        texts(r@) == split_on(s@, sep),
{
    let mut acc: Vec<Vec<char>> = Vec::new();
    let mut cur: Vec<char> = Vec::new();
    let mut i: usize = 0;
    assert(texts(acc@) =~= Seq::<Seq<char>>::empty());
    assert(texts(acc@) + split_from(s@, sep, 0, cur@) =~= split_on(s@, sep));
    while i < s.len()
        invariant
            i <= s@.len(),
            texts(acc@) + split_from(s@, sep, i as int, cur@) == split_on(s@, sep),
        decreases s.len() - i,
    {
        let ghost before = texts(acc@);
        if s[i] == sep {
            let piece = cur;
            let ghost pv = piece@;
            acc.push(piece);
            cur = Vec::new();
            assert(texts(acc@) =~= before.push(pv));
            assert(before + (seq![pv] + split_from(s@, sep, i + 1, Seq::empty())) =~= before.push(
                pv,
            ) + split_from(s@, sep, i + 1, Seq::empty()));
        } else {
            cur.push(s[i]);
        }
        i = i + 1;
    }
    let ghost before = texts(acc@);
    let last = cur;
    let ghost lv = last@;
    acc.push(last);
    assert(texts(acc@) =~= before.push(lv));
    assert(before + seq![lv] =~= before.push(lv));
    acc
}

/// The words of `s[i..]`, the first continuing `cur` when `in_word`.
pub open spec fn words_from(s: Seq<char>, i: int, cur: Seq<char>, in_word: bool) -> Seq<Seq<char>>
    decreases s.len() - i,
{
    if i < 0 || i >= s.len() {
        if in_word {
            seq![cur]
        } else {
            Seq::empty()
        }
    } else if is_ws(s[i]) {
        if in_word {
            seq![cur] + words_from(s, i + 1, Seq::empty(), false)
        } else {
            words_from(s, i + 1, Seq::empty(), false)
        }
    } else {
        words_from(s, i + 1, cur.push(s[i]), true)
    }
}

/// The whitespace-separated words of `s`; `str::split_whitespace`.
pub open spec fn words(s: Seq<char>) -> Seq<Seq<char>> {
    words_from(s, 0, Seq::empty(), false)
}

/// Splits `s` into its whitespace-separated words.
pub fn split_words(s: &[char]) -> (r: Vec<Vec<char>>)
    ensures
        texts(r@) == words(s@),
{
    let mut acc: Vec<Vec<char>> = Vec::new();
    let mut cur: Vec<char> = Vec::new();
    let mut in_word = false;
    let mut i: usize = 0;
    assert(texts(acc@) =~= Seq::<Seq<char>>::empty());
    assert(texts(acc@) + words_from(s@, 0, cur@, false) =~= words(s@));
    while i < s.len()
        invariant
            i <= s@.len(),
            !in_word ==> cur@ == Seq::<char>::empty(),
            texts(acc@) + words_from(s@, i as int, cur@, in_word) == words(s@),
        decreases s.len() - i,
    {
        let ghost before = texts(acc@);
        if is_whitespace(s[i]) {
            if in_word {
                let piece = cur;
                let ghost pv = piece@;
                acc.push(piece);
                assert(texts(acc@) =~= before.push(pv));
                assert(before + (seq![pv] + words_from(s@, i + 1, Seq::empty(), false))
                    =~= before.push(pv) + words_from(s@, i + 1, Seq::empty(), false));
            }
            cur = Vec::new();
            in_word = false;
        } else {
            cur.push(s[i]);
            in_word = true;
        }
        i = i + 1;
    }
    if in_word {
        let ghost before = texts(acc@);
        let last = cur;
        let ghost lv = last@;
        acc.push(last);
        assert(texts(acc@) =~= before.push(lv));
        assert(before + seq![lv] =~= before.push(lv));
    } else {
        assert(texts(acc@) + Seq::<Seq<char>>::empty() =~= texts(acc@));
    }
    acc
}

/// A copy of `v[a..b]`.
pub fn sub_chars(v: &[char], a: usize, b: usize) -> (r: Vec<char>)
    requires
        a <= b <= v@.len(),
    ensures
        r@ == v@.subrange(a as int, b as int),
{
    let mut r: Vec<char> = Vec::new();
    let mut i = a;
    while i < b
        invariant
            a <= i <= b <= v@.len(),
            r@ == v@.subrange(a as int, i as int),
        decreases b - i,
    {
        r.push(v[i]);
        assert(v@.subrange(a as int, i + 1) =~= v@.subrange(a as int, i as int).push(v@[i as int]));
        i = i + 1;
    }
    r
}

/// Length of the run of non-whitespace characters of `s` from `i`.
pub open spec fn word_run(s: Seq<char>, i: int) -> nat
    decreases s.len() - i,
{
    if 0 <= i < s.len() && !is_ws(s[i]) {
        1 + word_run(s, i + 1)
    } else {
        0
    }
}

/// Counts the non-whitespace characters of `s` from `i` up to the first
/// whitespace.
pub fn word_run_at(s: &[char], i: usize) -> (n: usize)
    requires
        i <= s@.len(),
    ensures
        n as nat == word_run(s@, i as int),
        i + n <= s@.len(),
{
    let mut k = i;
    while k < s.len() && !is_whitespace(s[k])
        invariant
            i <= k <= s@.len(),
            word_run(s@, i as int) == (k - i) + word_run(s@, k as int),
        decreases s.len() - k,
    {
        k = k + 1;
    }
    k - i
}

/// Splitting from the same place gives the same pieces whatever precedes it.
pub proof fn lemma_split_shift(p: Seq<char>, b: Seq<char>, sep: char, j: int, cur: Seq<char>)
    requires
        0 <= j <= b.len(),
    ensures
        split_from(p + b, sep, p.len() as int + j, cur) == split_from(b, sep, j, cur),
    decreases b.len() - j,
{
    let s = p + b;
    if j < b.len() {
        assert(s[p.len() as int + j] == b[j]);
        if b[j] == sep {
            lemma_split_shift(p, b, sep, j + 1, Seq::empty());
        } else {
            lemma_split_shift(p, b, sep, j + 1, cur.push(b[j]));
        }
    }
}

proof fn lemma_split_first_piece(s: Seq<char>, a: Seq<char>, sep: char, i: int)
    requires
        0 <= i <= a.len(),
        a.len() < s.len(),
        s.subrange(0, a.len() as int) == a,
        s[a.len() as int] == sep,
        forall|k: int| 0 <= k < a.len() ==> a[k] != sep,
    ensures
        split_from(s, sep, i, a.subrange(0, i)) == seq![a] + split_from(
            s,
            sep,
            a.len() + 1int,
            Seq::empty(),
        ),
    decreases a.len() - i,
{
    if i < a.len() {
        assert(s[i] == a[i]);
        assert(a.subrange(0, i).push(a[i]) =~= a.subrange(0, i + 1));
        lemma_split_first_piece(s, a, sep, i + 1);
    } else {
        assert(a.subrange(0, i) =~= a);
    }
}

/// Splitting `a`, a separator and `b`, where `a` holds no separator, gives
/// `a` and then the pieces of `b`.
pub proof fn lemma_split_cons(a: Seq<char>, sep: char, b: Seq<char>)
    requires
        forall|k: int| 0 <= k < a.len() ==> a[k] != sep,
    ensures
        split_on(a + seq![sep] + b, sep) == seq![a] + split_on(b, sep),
{
    let p = a + seq![sep];
    let s = p + b;
    assert(s.subrange(0, a.len() as int) =~= a);
    assert(s[a.len() as int] == sep);
    lemma_split_first_piece(s, a, sep, 0);
    assert(a.subrange(0, 0) =~= Seq::<char>::empty());
    lemma_split_shift(p, b, sep, 0, Seq::empty());
    assert(a + seq![sep] + b =~= s);
}

/// A run of non-whitespace extends the current word.
pub proof fn lemma_words_run(s: Seq<char>, i: int, j: int, cur: Seq<char>, in_word: bool)
    requires
        0 <= i <= j <= s.len(),
        forall|k: int| i <= k < j ==> !is_ws(#[trigger] s[k]),
        in_word || i < j,
    ensures
        words_from(s, i, cur, in_word) == words_from(s, j, cur + s.subrange(i, j), true),
    decreases j - i,
{
    if i < j {
        assert(!is_ws(s[i]));
        lemma_words_run(s, i + 1, j, cur.push(s[i]), true);
        assert(cur.push(s[i]) + s.subrange(i + 1, j) =~= cur + s.subrange(i, j));
    } else {
        assert(cur + s.subrange(i, j) =~= cur);
    }
}

/// Whitespace ends the current word.
pub proof fn lemma_words_break(s: Seq<char>, j: int, cur: Seq<char>)
    requires
        0 <= j < s.len(),
        is_ws(s[j]),
    ensures
        words_from(s, j, cur, true) == seq![cur] + words_from(s, j + 1, Seq::empty(), false),
{
}

/// The end of the text ends the current word.
pub proof fn lemma_words_end(s: Seq<char>, cur: Seq<char>)
    ensures
        words_from(s, s.len() as int, cur, true) == seq![cur],
{
}

/// The length of a run of non-whitespace followed by whitespace or the end.
pub proof fn lemma_word_run_at(s: Seq<char>, i: int, j: int)
    requires
        0 <= i <= j <= s.len(),
        forall|k: int| i <= k < j ==> !is_ws(#[trigger] s[k]),
        j == s.len() || is_ws(s[j]),
    ensures
        word_run(s, i) == j - i,
    decreases j - i,
{
    if i < j {
        lemma_word_run_at(s, i + 1, j);
    }
}

} // verus!
