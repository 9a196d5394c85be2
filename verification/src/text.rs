//! Exact text encodings shared by the projections: canonical decimal integers,
//! fixed-width hexadecimal counters, zero padding, and character-level helpers.
use vstd::prelude::*;

verus! {

/// The character of a decimal digit.
pub open spec fn digit_char(d: int) -> char
    recommends
        0 <= d < 10,
{
    (('0' as int) + d) as char
}

/// The canonical decimal digits of a natural number, without leading zeros.
pub open spec fn digits(n: nat) -> Seq<char>
    decreases n,
{
    if n < 10 {
        seq![digit_char(n as int)]
    } else {
        digits(n / 10).push(digit_char((n % 10) as int))
    }
}

/// Canonical decimal text of an integer, with a leading `-` when negative.
pub open spec fn decimal(n: int) -> Seq<char> {
    if n < 0 {
        seq!['-'] + digits((-n) as nat)
    } else {
        digits(n as nat)
    }
}

/// `width` decimal digits of `n`, left padded with zeros (never truncated).
pub open spec fn zero_padded(n: nat, width: nat) -> Seq<char> {
    let d = digits(n);
    if d.len() >= width {
        d
    } else {
        Seq::new((width - d.len()) as nat, |i: int| '0') + d
    }
}

/// True when every character is an ASCII digit.
pub open spec fn all_digits(s: Seq<char>) -> bool {
    forall|i: int| 0 <= i < s.len() ==> '0' <= #[trigger] s[i] <= '9'
}

/// The value of a sequence of ASCII digits.
pub open spec fn digits_value(s: Seq<char>) -> int
    decreases s.len(),
{
    if s.len() == 0 {
        0
    } else {
        digits_value(s.drop_last()) * 10 + ((s.last() as int) - ('0' as int))
    }
}

/// The integer denoted by decimal text in the accepted integer syntax: an optional
/// `+` or `-` sign followed by at least one ASCII digit.
pub open spec fn integer_text(s: Seq<char>) -> Option<int> {
    if s.len() > 0 && (s[0] == '+' || s[0] == '-') {
        let rest = s.subrange(1, s.len() as int);
        if rest.len() > 0 && all_digits(rest) {
            Some(if s[0] == '-' { -digits_value(rest) } else { digits_value(rest) })
        } else {
            None
        }
    } else if s.len() > 0 && all_digits(s) {
        Some(digits_value(s))
    } else {
        None
    }
}

/// The `i128` that std's integer parsing produces for this text.
pub open spec fn parsed_i128(s: Seq<char>) -> Option<i128> {
    match integer_text(s) {
        Some(v) => if i128::MIN <= v <= i128::MAX { Some(v as i128) } else { None },
        None => None,
    }
}

/// The `u128` that std's integer parsing produces for this text (no `-` accepted).
pub open spec fn parsed_u128(s: Seq<char>) -> Option<u128> {
    match integer_text(s) {
        Some(v) => if s[0] != '-' && 0 <= v <= u128::MAX { Some(v as u128) } else { None },
        None => None,
    }
}

pub open spec fn hex_char(d: int) -> char {
    if d < 10 {
        (('0' as int) + d) as char
    } else {
        (('a' as int) + d - 10) as char
    }
}

/// Exactly `width` lowercase hexadecimal digits of `n` (most significant first).
pub open spec fn hex_digits(n: nat, width: nat) -> Seq<char>
    decreases width,
{
    if width == 0 {
        Seq::empty()
    } else {
        hex_digits(n / 16, (width - 1) as nat).push(hex_char((n % 16) as int))
    }
}

/// Appends one character to a string (std `String::push`).
#[verifier::external_body]
pub(crate) fn push_char(s: &mut String, c: char)
    ensures
        final(s)@ == old(s)@.push(c),
{
    s.push(c);
}

/// Appends a string slice.
pub(crate) fn push_str(s: &mut String, t: &str)
    ensures
        final(s)@ == old(s)@ + t@,
{
    s.append(t);
}

/// The characters of a string slice, in order.
pub(crate) fn chars_of(s: &str) -> (result: Vec<char>)
    ensures
        result@ == s@,
{
    broadcast use vstd::string::axiom_spec_iter;

    let mut out: Vec<char> = Vec::new();
    for c in it: s.chars()
        invariant
            it.seq() == s@,
            out@ == it.seq().take(it.index() as int),
    {
        out.push(c);
    }
    out
}

/// The views of a sequence of strings.
pub open spec fn views(fields: Seq<String>) -> Seq<Seq<char>> {
    fields.map_values(|f: String| f@)
}

/// The rest of `s` after the prefix `p`, when `s` starts with `p`.
pub fn strip_prefix<'a>(s: &'a str, p: &str) -> (result: Option<&'a str>)
    ensures
        match result {
            Some(rest) => p@.is_prefix_of(s@) && rest@ == s@.skip(p@.len() as int),
            None => !p@.is_prefix_of(s@),
        },
{
    let n = s.unicode_len();
    let m = p.unicode_len();
    if m > n {
        return None;
    }
    let head = s.substring_char(0, m);
    if !str_eq(head, p) {
        return None;
    }
    let rest = s.substring_char(m, n);
    assert(rest@ =~= s@.skip(p@.len() as int));
    Some(rest)
}

/// A new string holding this slice's characters.
pub fn owned(t: &str) -> (result: String)
    ensures
        result@ == t@,
{
    t.to_owned()
}

/// Character-wise equality of two string slices.
pub fn str_eq(a: &str, b: &str) -> (result: bool)
    ensures
        result == (a@ == b@),
{
    let x = a.to_owned();
    let y = b.to_owned();
    x == y
}

proof fn lemma_digits_len_positive(n: nat)
    ensures
        digits(n).len() >= 1,
    decreases n,
{
    if n >= 10 {
        lemma_digits_len_positive(n / 10);
    }
}

/// Distinct natural numbers have distinct decimal digits.
pub proof fn lemma_digits_injective(a: nat, b: nat)
    requires
        digits(a) == digits(b),
    ensures
        a == b,
    decreases a,
{
    if a >= 10 {
        lemma_digits_len_positive(a / 10);
    }
    if b >= 10 {
        lemma_digits_len_positive(b / 10);
    }
    if a >= 10 && b >= 10 {
        assert(digits(a).last() == digit_char((a % 10) as int));
        assert(digits(b).last() == digit_char((b % 10) as int));
        assert(digits(a).drop_last() =~= digits(a / 10));
        assert(digits(b).drop_last() =~= digits(b / 10));
        lemma_digits_injective(a / 10, b / 10);
    } else if a < 10 && b < 10 {
        assert(digits(a)[0] == digit_char(a as int));
        assert(digits(b)[0] == digit_char(b as int));
    } else if a < 10 {
        assert(digits(a).len() == 1);
        assert(digits(b).len() == digits(b / 10).len() + 1);
    } else {
        assert(digits(b).len() == 1);
        assert(digits(a).len() == digits(a / 10).len() + 1);
    }
}

fn push_digits(s: &mut String, v: u128)
    ensures
        final(s)@ == old(s)@ + digits(v as nat),
    decreases v,
{
    if v >= 10 {
        push_digits(s, v / 10);
        let d = (v % 10) as u32;
        let c = char_of_digit(d);
        push_char(s, c);
        assert(digits(v as nat) == digits((v / 10) as nat).push(digit_char((v % 10) as int)));
        assert(s@ =~= old(s)@ + digits(v as nat));
    } else {
        let c = char_of_digit(v as u32);
        push_char(s, c);
        assert(s@ =~= old(s)@ + digits(v as nat));
    }
}

/// The digit character for `d`.
pub fn char_of_digit(d: u32) -> (c: char)
    requires
        d < 10,
    ensures
        c == digit_char(d as int),
{
    if d == 0 { '0' } else if d == 1 { '1' } else if d == 2 { '2' } else if d == 3 { '3' }
    else if d == 4 { '4' } else if d == 5 { '5' } else if d == 6 { '6' } else if d == 7 { '7' }
    else if d == 8 { '8' } else { '9' }
}

/// The lowercase hexadecimal digit character for `d`.
pub fn char_of_hex(d: u32) -> (c: char)
    requires
        d < 16,
    ensures
        c == hex_char(d as int),
{
    if d < 10 {
        char_of_digit(d)
    } else if d == 10 { 'a' } else if d == 11 { 'b' } else if d == 12 { 'c' } else if d == 13 { 'd' }
    else if d == 14 { 'e' } else { 'f' }
}

/// Appends the canonical decimal text of `n`.
pub fn push_u128(s: &mut String, n: u128)
    ensures
        final(s)@ == old(s)@ + decimal(n as int),
{
    push_digits(s, n);
}

/// Appends the canonical decimal text of `n`, with `-` when negative.
pub fn push_i128(s: &mut String, n: i128)
    ensures
        final(s)@ == old(s)@ + decimal(n as int),
{
    if n < 0 {
        push_char(s, '-');
        let magnitude: u128 = ((-(n + 1)) as u128) + 1;
        push_digits(s, magnitude);
        assert(s@ =~= old(s)@ + decimal(n as int));
    } else {
        push_digits(s, n as u128);
    }
}

/// Canonical decimal text of a signed integer (std `to_string`).
pub fn i128_text(n: i128) -> (result: String)
    ensures
        result@ == decimal(n as int),
{
    let mut s = String::new();
    push_i128(&mut s, n);
    assert(s@ =~= decimal(n as int));
    s
}

/// Canonical decimal text of an unsigned integer (std `to_string`).
pub fn u128_text(n: u128) -> (result: String)
    ensures
        result@ == decimal(n as int),
{
    let mut s = String::new();
    push_u128(&mut s, n);
    assert(s@ =~= decimal(n as int));
    s
}

/// Appends `n` in decimal, zero padded on the left to at least `width` digits.
pub fn push_padded(s: &mut String, n: u128, width: usize)
    ensures
        final(s)@ == old(s)@ + zero_padded(n as nat, width as nat),
{
    let digits_text = u128_text(n);
    let len = digits_text.as_str().unicode_len();
    proof {
        lemma_digits_len_positive(n as nat);
    }
    if len < width {
        let mut k: usize = 0;
        while k < width - len
            invariant
                k <= width - len,
                len == digits(n as nat).len(),
                len < width,
                s@ =~= old(s)@ + Seq::new(k as nat, |i: int| '0'),
            decreases width - len - k,
        {
            push_char(s, '0');
            k = k + 1;
            assert(s@ =~= old(s)@ + Seq::new(k as nat, |i: int| '0'));
        }
        push_str(s, digits_text.as_str());
        assert(s@ =~= old(s)@ + zero_padded(n as nat, width as nat));
    } else {
        push_str(s, digits_text.as_str());
        assert(s@ =~= old(s)@ + zero_padded(n as nat, width as nat));
    }
}


pub proof fn lemma_digits_value_take(s: Seq<char>, j: int)
    requires
        all_digits(s),
        0 <= j <= s.len(),
    ensures
        0 <= digits_value(s.take(j)) <= digits_value(s),
    decreases s.len(),
{
    if j == s.len() {
        assert(s.take(j) =~= s);
        lemma_digits_value_nonneg(s);
    } else {
        let t = s.drop_last();
        assert(all_digits(t));
        lemma_digits_value_take(t, j);
        assert(t.take(j) =~= s.take(j));
        lemma_digits_value_nonneg(t);
    }
}

pub proof fn lemma_digits_value_nonneg(s: Seq<char>)
    requires
        all_digits(s),
    ensures
        digits_value(s) >= 0,
    decreases s.len(),
{
    if s.len() > 0 {
        assert(all_digits(s.drop_last()));
        lemma_digits_value_nonneg(s.drop_last());
    }
}

/// The digits of `t` from position `start`, accumulated with the given sign; None on
/// any non-digit or when the value leaves the range of `i128`.
fn accumulate_i128(t: &str, start: usize, negative: bool) -> (result: Option<i128>)
    requires
        start <= t@.len(),
    ensures
        match result {
            Some(v) => all_digits(t@.subrange(start as int, t@.len() as int))
                && v == (if negative { -digits_value(t@.subrange(start as int, t@.len() as int)) }
                         else { digits_value(t@.subrange(start as int, t@.len() as int)) }),
            None => !all_digits(t@.subrange(start as int, t@.len() as int))
                || !(i128::MIN <= (if negative { -digits_value(t@.subrange(start as int, t@.len() as int)) }
                         else { digits_value(t@.subrange(start as int, t@.len() as int)) }) <= i128::MAX),
        },
{
    let n = t.unicode_len();
    let ghost rest = t@.subrange(start as int, t@.len() as int);
    let mut acc: i128 = 0;
    let mut k: usize = start;
    while k < n
        invariant
            start <= k <= n,
            n == t@.len(),
            rest == t@.subrange(start as int, t@.len() as int),
            all_digits(rest.take(k - start)),
            acc == (if negative { -digits_value(rest.take(k - start)) } else { digits_value(rest.take(k - start)) }),
        decreases n - k,
    {
        let c = t.get_char(k);
        if !('0' <= c && c <= '9') {
            proof {
                assert(rest[k - start] == c);
            }
            return None;
        }
        let d = (c as u32 - '0' as u32) as i128;
        proof {
            assert(rest.take(k - start + 1).drop_last() =~= rest.take(k - start));
            assert(rest.take(k - start + 1).last() == c);
            assert(all_digits(rest.take(k - start + 1)));
        }
        let next = if negative {
            match acc.checked_mul(10) {
                Some(m) => m.checked_sub(d),
                None => None,
            }
        } else {
            match acc.checked_mul(10) {
                Some(m) => m.checked_add(d),
                None => None,
            }
        };
        match next {
            Some(v) => {
                acc = v;
            }
            None => {
                proof {
                    let ghost partial = rest.take(k - start + 1);
                    if all_digits(rest) {
                        lemma_digits_value_take(rest, k - start + 1);
                    }
                }
                return None;
            }
        }
        k = k + 1;
    }
    proof {
        assert(rest.take(k - start) =~= rest);
    }
    Some(acc)
}

/// std's `i128` parsing of decimal text.
pub fn parse_i128(t: &str) -> (result: Option<i128>)
    ensures
        result == parsed_i128(t@),
{
    let n = t.unicode_len();
    if n == 0 {
        return None;
    }
    let first = t.get_char(0);
    if first == '+' || first == '-' {
        if n == 1 {
            return None;
        }
        let r = accumulate_i128(t, 1, first == '-');
        proof {
            lemma_digits_value_nonneg_if(t@.subrange(1, t@.len() as int));
        }
        r
    } else {
        let r = accumulate_i128(t, 0, false);
        proof {
            assert(t@.subrange(0, t@.len() as int) =~= t@);
            if !all_digits(t@) {
                assert(!('0' <= t@[0] <= '9') || !all_digits(t@));
            }
        }
        r
    }
}

proof fn lemma_digits_value_nonneg_if(s: Seq<char>)
    ensures
        all_digits(s) ==> digits_value(s) >= 0,
{
    if all_digits(s) {
        lemma_digits_value_nonneg(s);
    }
}

/// std's `u128` parsing of decimal text.
pub fn parse_u128(t: &str) -> (result: Option<u128>)
    ensures
        result == parsed_u128(t@),
{
    let n = t.unicode_len();
    if n == 0 {
        return None;
    }
    let first = t.get_char(0);
    let start: usize = if first == '+' { 1 } else { 0 };
    if first == '-' || (first == '+' && n == 1) {
        return None;
    }
    let ghost rest = t@.subrange(start as int, t@.len() as int);
    let mut acc: u128 = 0;
    let mut k: usize = start;
    while k < n
        invariant
            start <= k <= n,
            n == t@.len(),
            rest == t@.subrange(start as int, t@.len() as int),
            all_digits(rest.take(k - start)),
            acc == digits_value(rest.take(k - start)),
            n > 0,
            first == t@[0],
            first != '-',
            start == (if first == '+' { 1usize } else { 0usize }),
        decreases n - k,
    {
        let c = t.get_char(k);
        if !('0' <= c && c <= '9') {
            proof {
                assert(rest[k - start] == c);
                assert(!all_digits(rest));
                if start == 0 {
                    assert(rest =~= t@);
                    assert(t@[0] != '+' && t@[0] != '-');
                    assert(!all_digits(t@));
                } else {
                    assert(t@[0] == '+');
                }
                assert(integer_text(t@) is None);
            }
            return None;
        }
        let d = (c as u32 - '0' as u32) as u128;
        proof {
            assert(rest.take(k - start + 1).drop_last() =~= rest.take(k - start));
            assert(rest.take(k - start + 1).last() == c);
            assert(all_digits(rest.take(k - start + 1)));
        }
        proof {
            assert(digits_value(rest.take(k - start + 1)) == acc * 10 + d);
        }
        match acc.checked_mul(10) {
            Some(m) => match m.checked_add(d) {
                Some(v) => {
                    acc = v;
                }
                None => {
                    proof {
                        if all_digits(rest) {
                            lemma_digits_value_take(rest, k - start + 1);
                        }
                        if start == 0 {
                            assert(rest =~= t@);
                        }
                    }
                    return None;
                }
            },
            None => {
                proof {
                    if all_digits(rest) {
                        lemma_digits_value_take(rest, k - start + 1);
                    }
                    if start == 0 {
                        assert(rest =~= t@);
                    }
                }
                return None;
            }
        }
        k = k + 1;
    }
    proof {
        assert(rest.take(k - start) =~= rest);
        if start == 0 {
            assert(rest =~= t@);
        }
        lemma_digits_value_nonneg(rest);
    }
    Some(acc)
}

/// Text order by code point, as `String`'s `Ord` compares.
pub open spec fn text_lt(a: Seq<char>, b: Seq<char>) -> bool
    decreases a.len(),
{
    if a.len() == 0 {
        b.len() > 0
    } else if b.len() == 0 {
        false
    } else if a[0] != b[0] {
        (a[0] as u32) < (b[0] as u32)
    } else {
        text_lt(a.drop_first(), b.drop_first())
    }
}

proof fn lemma_text_lt_skip(a: Seq<char>, b: Seq<char>, i: int)
    requires
        0 <= i <= a.len(),
        i <= b.len(),
        a.take(i) == b.take(i),
    ensures
        text_lt(a, b) == text_lt(a.skip(i), b.skip(i)),
    decreases i,
{
    if i > 0 {
        assert(a[0] == a.take(i)[0] && b[0] == b.take(i)[0]);
        assert(a.drop_first().take(i - 1) =~= a.take(i).drop_first());
        assert(b.drop_first().take(i - 1) =~= b.take(i).drop_first());
        lemma_text_lt_skip(a.drop_first(), b.drop_first(), i - 1);
        assert(a.drop_first().skip(i - 1) =~= a.skip(i));
        assert(b.drop_first().skip(i - 1) =~= b.skip(i));
    } else {
        assert(a.skip(0) =~= a && b.skip(0) =~= b);
    }
}

/// No text sorts strictly before itself.
pub proof fn lemma_text_lt_irreflexive(a: Seq<char>)
    ensures
        !text_lt(a, a),
    decreases a.len(),
{
    if a.len() > 0 {
        lemma_text_lt_irreflexive(a.drop_first());
    }
}

/// Text order is transitive.
pub proof fn lemma_text_lt_transitive(a: Seq<char>, b: Seq<char>, c: Seq<char>)
    requires
        text_lt(a, b),
        text_lt(b, c),
    ensures
        text_lt(a, c),
    decreases a.len(),
{
    if a.len() > 0 && b.len() > 0 && c.len() > 0 && a[0] == b[0] && b[0] == c[0] {
        lemma_text_lt_transitive(a.drop_first(), b.drop_first(), c.drop_first());
    }
}

/// Whether one text sorts strictly before another.
pub fn text_less(a: &str, b: &str) -> (result: bool)
    ensures
        result == text_lt(a@, b@),
{
    let n = a.unicode_len();
    let m = b.unicode_len();
    let mut i: usize = 0;
    while i < n && i < m && a.get_char(i) == b.get_char(i)
        invariant
            0 <= i <= n && i <= m,
            n == a@.len() && m == b@.len(),
            a@.take(i as int) == b@.take(i as int),
        decreases n - i,
    {
        assert(a@.take(i + 1) =~= a@.take(i as int).push(a@[i as int]));
        assert(b@.take(i + 1) =~= b@.take(i as int).push(b@[i as int]));
        i = i + 1;
    }
    proof {
        lemma_text_lt_skip(a@, b@, i as int);
    }
    if i == n {
        i < m
    } else if i == m {
        false
    } else {
        (a.get_char(i) as u32) < (b.get_char(i) as u32)
    }
}


/// Comparing concatenations whose first parts have equal length: the first parts decide
/// unless they are equal.
pub proof fn lemma_text_lt_concat(a1: Seq<char>, a2: Seq<char>, b1: Seq<char>, b2: Seq<char>)
    requires
        a1.len() == b1.len(),
    ensures
        text_lt(a1 + a2, b1 + b2) == if a1 == b1 { text_lt(a2, b2) } else { text_lt(a1, b1) },
    decreases a1.len(),
{
    if a1.len() == 0 {
        assert(a1 + a2 =~= a2);
        assert(b1 + b2 =~= b2);
        assert(a1 =~= b1);
    } else {
        assert((a1 + a2)[0] == a1[0]);
        assert((b1 + b2)[0] == b1[0]);
        if a1[0] == b1[0] {
            assert((a1 + a2).drop_first() =~= a1.drop_first() + a2);
            assert((b1 + b2).drop_first() =~= b1.drop_first() + b2);
            lemma_text_lt_concat(a1.drop_first(), a2, b1.drop_first(), b2);
            if a1.drop_first() =~= b1.drop_first() {
                assert forall|i: int| 0 <= i < a1.len() implies a1[i] == b1[i] by {
                    if i > 0 {
                        assert(a1[i] == a1.drop_first()[i - 1]);
                        assert(b1[i] == b1.drop_first()[i - 1]);
                    }
                }
                assert(a1 =~= b1);
            } else {
                assert(a1 != b1);
            }
        } else {
            assert(a1 != b1);
        }
    }
}

/// 16 to the power `w`.
pub open spec fn pow16(w: nat) -> nat
    decreases w,
{
    if w == 0 { 1 } else { 16 * pow16((w - 1) as nat) }
}

proof fn lemma_hex_char_order(d: int, e: int)
    requires
        0 <= d < 16,
        0 <= e < 16,
    ensures
        (hex_char(d) == hex_char(e)) == (d == e),
        ((hex_char(d) as u32) < (hex_char(e) as u32)) == (d < e),
{
    assert((hex_char(d) as u32) as int == if d < 10 { 48 + d } else { 87 + d });
    assert((hex_char(e) as u32) as int == if e < 10 { 48 + e } else { 87 + e });
}

/// Fixed-width hexadecimal digits order texts as their values: equal exactly when the
/// values are, and lexicographically smaller exactly when the value is.
pub proof fn lemma_hex_order(n: nat, m: nat, w: nat)
    requires
        n < pow16(w),
        m < pow16(w),
    ensures
        hex_digits(n, w).len() == w,
        (hex_digits(n, w) == hex_digits(m, w)) == (n == m),
        text_lt(hex_digits(n, w), hex_digits(m, w)) == (n < m),
    decreases w,
{
    if w == 0 {
        assert(n == 0 && m == 0);
    } else {
        let p = pow16((w - 1) as nat);
        assert(n / 16 < p && m / 16 < p) by (nonlinear_arith)
            requires
                n < 16 * p,
                m < 16 * p,
        ;
        lemma_hex_order(n / 16, m / 16, (w - 1) as nat);
        lemma_hex_order(m / 16, m / 16, (w - 1) as nat);
        let hn = hex_digits(n / 16, (w - 1) as nat);
        let hm = hex_digits(m / 16, (w - 1) as nat);
        let cn = hex_char((n % 16) as int);
        let cm = hex_char((m % 16) as int);
        assert(hex_digits(n, w) == hn + seq![cn]);
        assert(hex_digits(m, w) == hm + seq![cm]);
        lemma_text_lt_concat(hn, seq![cn], hm, seq![cm]);
        lemma_hex_char_order((n % 16) as int, (m % 16) as int);
        assert(n == 16 * (n / 16) + n % 16);
        assert(m == 16 * (m / 16) + m % 16);
        assert(seq![cn].drop_first() =~= Seq::<char>::empty());
        assert(seq![cm].drop_first() =~= Seq::<char>::empty());
        assert(text_lt(seq![cn], seq![cm]) == ((cn as u32) < (cm as u32))) by {
            assert(text_lt(Seq::<char>::empty(), Seq::<char>::empty()) == false);
        }
        if hn + seq![cn] == hm + seq![cm] {
            assert((hn + seq![cn]).drop_last() =~= hn);
            assert((hm + seq![cm]).drop_last() =~= hm);
            assert((hn + seq![cn]).last() == cn);
            assert((hm + seq![cm]).last() == cm);
        }
        if n == m {
            assert(hn + seq![cn] =~= hm + seq![cm]);
        }
    }
}

} // verus!
