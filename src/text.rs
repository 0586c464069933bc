use vstd::prelude::*;
use vstd::string::StrSliceExecFns;

use crate::numbers::Int;

verus! {

/// The character of a decimal digit.
pub open spec fn digit_char(d: int) -> char {
    if d == 0 {
        '0'
    } else if d == 1 {
        '1'
    } else if d == 2 {
        '2'
    } else if d == 3 {
        '3'
    } else if d == 4 {
        '4'
    } else if d == 5 {
        '5'
    } else if d == 6 {
        '6'
    } else if d == 7 {
        '7'
    } else if d == 8 {
        '8'
    } else {
        '9'
    }
}

/// The decimal digits of `n`, most significant first, without leading zeros.
pub open spec fn digits(n: nat) -> Seq<char>
    decreases n,
{
    if n < 10 {
        seq![digit_char(n as int)]
    } else {
        digits(n / 10).push(digit_char(n as int % 10))
    }
}

/// The decimal text of `n`, with a leading `-` where it is negative.
pub open spec fn decimal(n: int) -> Seq<char> {
    if n < 0 {
        seq!['-'] + digits((-n) as nat)
    } else {
        digits(n as nat)
    }
}

/// `k` spaces, none where `k` is not positive.
pub open spec fn spaces(k: int) -> Seq<char>
    decreases k,
{
    if k <= 0 {
        Seq::empty()
    } else {
        spaces(k - 1).push(' ')
    }
}

/// The decimal texts of the values, separated by single spaces.
pub open spec fn joined(s: Seq<i32>) -> Seq<char>
    decreases s.len(),
{
    if s.len() == 0 {
        Seq::empty()
    } else if s.len() == 1 {
        decimal(s[0] as int)
    } else {
        joined(s.drop_last()) + seq![' '] + decimal(s.last() as int)
    }
}

/// The names, separated by single spaces.
pub open spec fn names_text(s: Seq<Seq<char>>) -> Seq<char>
    decreases s.len(),
{
    if s.len() == 0 {
        Seq::empty()
    } else if s.len() == 1 {
        s[0]
    } else {
        names_text(s.drop_last()) + seq![' '] + s.last()
    }
}

/// Whether `c` is white space in the sense of Unicode's `White_Space` property.
pub open spec fn is_space(c: char) -> bool {
    ('\u{9}' <= c && c <= '\u{d}') || c == ' ' || c == '\u{85}' || c == '\u{a0}' || c
        == '\u{1680}' || ('\u{2000}' <= c && c <= '\u{200a}') || c == '\u{2028}' || c
        == '\u{2029}' || c == '\u{202f}' || c == '\u{205f}' || c == '\u{3000}'
}

/// The value of a text of decimal digits.
pub open spec fn digits_value(s: Seq<char>) -> int
    decreases s.len(),
{
    if s.len() == 0 {
        0
    } else {
        digits_value(s.drop_last()) * 10 + (s.last() as int - '0' as int)
    }
}

/// Whether the text is made of decimal digits only.
pub open spec fn all_digits(s: Seq<char>) -> bool {
    forall|i: int| 0 <= i < s.len() ==> '0' <= #[trigger] s[i] && s[i] <= '9'
}

/// The integer that a text writes in decimal: an optional sign, at least one digit, and a
/// value in the range of `Int`.
pub open spec fn decimal_value(s: Seq<char>) -> Option<i32> {
    let negative = s.len() > 0 && s[0] == '-';
    let body = if s.len() > 0 && (s[0] == '-' || s[0] == '+') {
        s.drop_first()
    } else {
        s
    };
    let v = if negative {
        -digits_value(body)
    } else {
        digits_value(body)
    };
    if body.len() == 0 || !all_digits(body) || v < i32::MIN || v > i32::MAX {
        None
    } else {
        Some(v as i32)
    }
}

/// The character of the decimal digit `d`.
pub fn digit(d: u64) -> (c: char)
    requires
        d < 10,
    ensures
        c == digit_char(d as int),
{
    if d == 0 {
        '0'
    } else if d == 1 {
        '1'
    } else if d == 2 {
        '2'
    } else if d == 3 {
        '3'
    } else if d == 4 {
        '4'
    } else if d == 5 {
        '5'
    } else if d == 6 {
        '6'
    } else if d == 7 {
        '7'
    } else if d == 8 {
        '8'
    } else {
        '9'
    }
}

/// Append the digits of `n`.
pub fn push_digits(out: &mut Vec<char>, n: u64)
    ensures
        final(out)@ == old(out)@ + digits(n as nat),
    decreases n,
{
    if n >= 10 {
        push_digits(out, n / 10);
    }
    out.push(digit(n % 10));
    proof {
        if n < 10 {
            assert(old(out)@ + digits(n as nat) =~= old(out)@.push(digit_char(n as int)));
        } else {
            assert(old(out)@ + digits(n as nat) =~= (old(out)@ + digits((n / 10) as nat)).push(
                digit_char(n as int % 10),
            ));
        }
    }
}

/// Append the decimal text of `n`.
pub fn push_decimal(out: &mut Vec<char>, n: Int)
    ensures
        final(out)@ == old(out)@ + decimal(n as int),
{
    if n < 0 {
        out.push('-');
        push_digits(out, (-(n as i64)) as u64);
        assert(old(out)@ + decimal(n as int) =~= old(out)@.push('-') + digits((-n) as nat));
    } else {
        push_digits(out, n as u64);
    }
}

/// Append `k` spaces.
pub fn push_spaces(out: &mut Vec<char>, k: Int)
    ensures
        final(out)@ == old(out)@ + spaces(k as int),
{
    let mut i: Int = 0;
    assert(old(out)@ + spaces(0) =~= old(out)@);
    while i < k
        invariant
            0 <= i,
            k > 0 ==> i <= k,
            k <= 0 ==> i == 0,
            out@ == old(out)@ + spaces(i as int),
        decreases k - i,
    {
        out.push(' ');
        i += 1;
        assert(old(out)@ + spaces(i as int) =~= (old(out)@ + spaces(i - 1)).push(' '));
    }
    assert(k <= 0 ==> spaces(k as int) == spaces(0));
}

/// Append the values of `v` from `from` up to `to`, separated by single spaces.
pub fn push_joined(out: &mut Vec<char>, v: &Vec<Int>, from: usize, to: usize)
    requires
        from <= to <= v.len(),
    ensures
        final(out)@ == old(out)@ + joined(v@.subrange(from as int, to as int)),
{
    let mut i: usize = from;
    assert(old(out)@ + joined(v@.subrange(from as int, from as int)) =~= old(out)@);
    while i < to
        invariant
            from <= i <= to <= v.len(),
            out@ == old(out)@ + joined(v@.subrange(from as int, i as int)),
        decreases to - i,
    {
        let ghost before = out@;
        let ghost s = v@.subrange(from as int, i + 1);
        assert(s.drop_last() =~= v@.subrange(from as int, i as int));
        if i > from {
            out.push(' ');
        }
        push_decimal(out, v[i]);
        i += 1;
        proof {
            if s.len() == 1 {
                assert(out@ =~= old(out)@ + joined(s));
            } else {
                assert(out@ =~= old(out)@ + joined(s));
            }
        }
    }
}

/// Whether `c` is white space, as `char::is_whitespace` decides it.
pub fn is_whitespace(c: char) -> (r: bool)
    ensures
        r == is_space(c),
{
    ('\u{9}' <= c && c <= '\u{d}') || c == ' ' || c == '\u{85}' || c == '\u{a0}' || c
        == '\u{1680}' || ('\u{2000}' <= c && c <= '\u{200a}') || c == '\u{2028}' || c
        == '\u{2029}' || c == '\u{202f}' || c == '\u{205f}' || c == '\u{3000}'
}

/// The integer written in decimal by `s`, if it is one.
pub fn parse_int(s: &String) -> (r: Option<Int>)
    ensures
        r == decimal_value(s@),
{
    let t = s.as_str();
    let n = t.unicode_len();
    if n == 0 {
        return None;
    }
    let first = t.get_char(0);
    assert(s@[0] == first);
    let negative = first == '-';
    let start: usize = if first == '-' || first == '+' {
        1
    } else {
        0
    };
    let ghost body = if start == 1 {
        s@.drop_first()
    } else {
        s@
    };
    assert(body =~= s@.subrange(start as int, n as int));
    if start == n {
        return None;
    }
    let mut v: i64 = 0;
    let mut big = false;
    let mut i: usize = start;
    assert(body.subrange(0, 0) =~= Seq::<char>::empty());
    while i < n
        invariant
            start <= i <= n,
            n == s@.len(),
            n > 0,
            t@ == s@,
            start == (if s@[0] == '-' || s@[0] == '+' { 1usize } else { 0usize }),
            negative == (s@[0] == '-'),
            body == s@.subrange(start as int, n as int),
            all_digits(body.subrange(0, i - start)),
            !big ==> v == digits_value(body.subrange(0, i - start)),
            big ==> digits_value(body.subrange(0, i - start)) > 0x8000_0000,
            0 <= v <= 0x8000_0000,
        decreases n - i,
    {
        let c = t.get_char(i);
        if c < '0' || c > '9' {
            assert(body[i - start] == c);
            assert(!all_digits(body));
            return None;
        }
        let ghost prefix = body.subrange(0, i + 1 - start);
        assert(prefix.drop_last() =~= body.subrange(0, i - start));
        assert(all_digits(prefix));
        let d = (c as u32 - '0' as u32) as i64;
        if !big {
            v = v * 10 + d;
            if v > 0x8000_0000 {
                big = true;
                v = 0;
            }
        } else {
            assert(digits_value(prefix) >= digits_value(prefix.drop_last()));
        }
        i += 1;
    }
    assert(body.subrange(0, n - start) =~= body);
    if big {
        return None;
    }
    if negative {
        Some((-v) as Int)
    } else if v > 0x7fff_ffff {
        None
    } else {
        Some(v as Int)
    }
}

/// Append the characters of `t`.
pub fn push_text(out: &mut Vec<char>, t: &str)
    ensures
        final(out)@ == old(out)@ + t@,
{
    let n = t.unicode_len();
    let mut i: usize = 0;
    while i < n
        invariant
            i <= n,
            n == t@.len(),
            out@ == old(out)@ + t@.subrange(0, i as int),
        decreases n - i,
    {
        out.push(t.get_char(i));
        i += 1;
        assert(out@ =~= old(out)@ + t@.subrange(0, i as int));
    }
    assert(t@.subrange(0, n as int) =~= t@);
}

/// Whether `a` comes no later than `b`, comparing character by character.
pub open spec fn text_le(a: Seq<char>, b: Seq<char>) -> bool
    decreases a.len(),
{
    if a.len() == 0 {
        true
    } else if b.len() == 0 {
        false
    } else if a[0] != b[0] {
        a[0] < b[0]
    } else {
        text_le(a.drop_first(), b.drop_first())
    }
}

/// `x` put into `s` before the first text that it comes no later than.
pub open spec fn insert_sorted(x: Seq<char>, s: Seq<Seq<char>>) -> Seq<Seq<char>>
    decreases s.len(),
{
    if s.len() == 0 {
        seq![x]
    } else if text_le(x, s[0]) {
        seq![x] + s
    } else {
        seq![s[0]] + insert_sorted(x, s.drop_first())
    }
}

/// The texts in order, by insertion.
pub open spec fn sorted_texts(s: Seq<Seq<char>>) -> Seq<Seq<char>>
    decreases s.len(),
{
    if s.len() == 0 {
        Seq::empty()
    } else {
        insert_sorted(s.last(), sorted_texts(s.drop_last()))
    }
}

/// The texts that the vectors hold.
pub open spec fn texts(v: Seq<Vec<char>>) -> Seq<Seq<char>> {
    Seq::new(v.len(), |i: int| v[i]@)
}

/// Whether `a` comes no later than `b`.
pub fn text_le_exec(a: &Vec<char>, b: &Vec<char>) -> (r: bool)
    ensures
        r == text_le(a@, b@),
{
    let mut i: usize = 0;
    assert(a@.subrange(0, a@.len() as int) =~= a@);
    assert(b@.subrange(0, b@.len() as int) =~= b@);
    while i < a.len()
        invariant
            i <= a.len(),
            i <= b.len(),
            text_le(a@, b@) == text_le(a@.subrange(i as int, a@.len() as int), b@.subrange(i as int, b@.len() as int)),
        decreases a.len() - i,
    {
        let ghost x = a@.subrange(i as int, a@.len() as int);
        let ghost y = b@.subrange(i as int, b@.len() as int);
        if i >= b.len() {
            return false;
        }
        if a[i] != b[i] {
            return a[i] < b[i];
        }
        assert(x.drop_first() =~= a@.subrange(i + 1, a@.len() as int));
        assert(y.drop_first() =~= b@.subrange(i + 1, b@.len() as int));
        i += 1;
    }
    true
}

proof fn lemma_insert_at(x: Seq<char>, s: Seq<Seq<char>>, j: int)
    requires
        0 <= j <= s.len(),
        forall|k: int| 0 <= k < j ==> !text_le(x, #[trigger] s[k]),
        j < s.len() ==> text_le(x, s[j]),
    ensures
        insert_sorted(x, s) == s.subrange(0, j) + seq![x] + s.subrange(j, s.len() as int),
    decreases j,
{
    if j == 0 {
        assert(s.subrange(0, 0) + seq![x] + s.subrange(0, s.len() as int) =~= seq![x] + s);
    } else {
        let t = s.drop_first();
        assert forall|k: int| 0 <= k < j - 1 implies !text_le(x, #[trigger] t[k]) by {
            assert(t[k] == s[k + 1]);
        }
        lemma_insert_at(x, t, j - 1);
        assert(s.subrange(0, j) + seq![x] + s.subrange(j, s.len() as int) =~= seq![s[0]] + (
        t.subrange(0, j - 1) + seq![x] + t.subrange(j - 1, t.len() as int)));
    }
}

/// Put `x` into the ordered `v` as [`insert_sorted`] does.
pub fn insert_sorted_exec(v: &mut Vec<Vec<char>>, x: Vec<char>)
    ensures
        texts(final(v)@) == insert_sorted(x@, texts(old(v)@)),
{
    let ghost s = texts(v@);
    let mut j: usize = 0;
    while j < v.len() && !text_le_exec(&x, &v[j])
        invariant
            j <= v.len(),
            s == texts(v@),
            forall|k: int| 0 <= k < j ==> !text_le(x@, #[trigger] s[k]),
        decreases v.len() - j,
    {
        j += 1;
    }
    proof {
        lemma_insert_at(x@, s, j as int);
    }
    let ghost xv = x@;
    v.insert(j, x);
    assert(texts(v@) =~= s.subrange(0, j as int) + seq![xv] + s.subrange(j as int, s.len() as int));
}

} // verus!
