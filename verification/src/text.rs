use vstd::prelude::*;

verus! {

/// The characters of `s`, in order.
pub(crate) fn chars_of(s: &str) -> (r: Vec<char>)
    ensures
        r@ == s@,
{
    let mut v: Vec<char> = Vec::new();
    for c in it: s.chars()
        invariant
            v@ == it.seq().take(it.index()),
    {
        v.push(c);
    }
    v
}

/// Whether `y` occurs in `x` at character offset `off`.
fn chars_match_at(x: &Vec<char>, off: usize, y: &Vec<char>) -> (r: bool)
    ensures
        r == (off + y@.len() <= x@.len() && x@.subrange(off as int, off + y@.len()) == y@),
{
    if y.len() > x.len() || off > x.len() - y.len() {
        return false;
    }
    let n = x.len();
    let mut i: usize = 0;
    while i < y.len()
        invariant
            n == x@.len(),
            off + y@.len() <= x@.len(),
            i <= y@.len(),
            forall|j: int| 0 <= j < i ==> x@[off + j] == #[trigger] y@[j],
        decreases y@.len() - i,
    {
        if x[off + i] != y[i] {
            return false;
        }
        i = i + 1;
    }
    assert(x@.subrange(off as int, off + y@.len()) =~= y@);
    true
}

/// Whether the two strings hold the same characters.
pub(crate) fn str_equals(a: &str, b: &str) -> (r: bool)
    ensures
        r == (a@ == b@),
{
    let x = chars_of(a);
    let y = chars_of(b);
    let r = x.len() == y.len() && chars_match_at(&x, 0, &y);
    proof {
        if x@.len() == y@.len() {
            assert(x@.subrange(0, x@.len() as int) =~= x@);
        }
    }
    r
}

/// Whether `prefix` is an initial segment of `s`.
pub(crate) fn str_starts_with(s: &str, prefix: &str) -> (r: bool)
    ensures
        r == (prefix@.len() <= s@.len() && s@.subrange(0, prefix@.len() as int) == prefix@),
{
    let x = chars_of(s);
    let y = chars_of(prefix);
    chars_match_at(&x, 0, &y)
}

/// Whether `suffix` is a final segment of `s`.
pub(crate) fn str_ends_with(s: &str, suffix: &str) -> (r: bool)
    ensures
        r == (suffix@.len() <= s@.len() && s@.subrange(s@.len() - suffix@.len(), s@.len() as int) == suffix@),
{
    let x = chars_of(s);
    let y = chars_of(suffix);
    if y.len() > x.len() {
        return false;
    }
    chars_match_at(&x, x.len() - y.len(), &y)
}

/// Whether `c` occurs in `v`.
fn vec_has_char(v: &Vec<char>, c: char) -> (r: bool)
    ensures
        r == v@.contains(c),
{
    let mut i: usize = 0;
    while i < v.len()
        invariant
            i <= v@.len(),
            forall|j: int| 0 <= j < i ==> #[trigger] v@[j] != c,
        decreases v@.len() - i,
    {
        if v[i] == c {
            assert(v@[i as int] == c);
            return true;
        }
        i = i + 1;
    }
    false
}

/// What `str::to_lowercase` returns for a string: its Unicode lowercase mapping.
pub uninterp spec fn lowercase(s: Seq<char>) -> Seq<char>;

/// What `str::to_uppercase` returns for a string: its Unicode uppercase mapping.
pub uninterp spec fn uppercase(s: Seq<char>) -> Seq<char>;

/// `s` without its first character when that is a `+`.
pub open spec fn without_plus(s: Seq<char>) -> Seq<char> {
    if s.len() > 0 && s[0] == '+' {
        s.skip(1)
    } else {
        s
    }
}

/// What `str::parse::<u64>` returns (`None` for an error): an optional `+`, then
/// one or more ASCII digits whose value fits in `u64`.
pub open spec fn parsed_u64(s: Seq<char>) -> Option<u64> {
    let d = without_plus(s);
    if d.len() > 0 && all_digits(d) && digits_value(d) <= u64::MAX {
        Some(digits_value(d) as u64)
    } else {
        None
    }
}

/// `str::to_lowercase`: the result is the lowercase mapping of `s`, named `lowercase`.
#[verifier::external_body]
pub(crate) fn to_lower(s: &str) -> (r: String)
    ensures
        r@ == lowercase(s@),
{
    s.to_lowercase()
}

/// `str::to_uppercase`: the result is the uppercase mapping of `s`, named `uppercase`.
#[verifier::external_body]
pub(crate) fn to_upper(s: &str) -> (r: String)
    ensures
        r@ == uppercase(s@),
{
    s.to_uppercase()
}

/// The characters of `s` without those listed in `chars`.
pub open spec fn without_chars(s: Seq<char>, chars: Seq<char>) -> Seq<char> {
    s.filter(|ch: char| !chars.contains(ch))
}

/// `s` without the characters listed in `chars`, the others kept in order.
pub(crate) fn remove_chars(s: &str, chars: &Vec<char>) -> (r: String)
    ensures
        r@ == without_chars(s@, chars@),
{
    let x = chars_of(s);
    let mut out = String::new();
    let mut i: usize = 0;
    while i < x.len()
        invariant
            x@ == s@,
            i <= x@.len(),
            out@ == without_chars(s@.take(i as int), chars@),
        decreases x@.len() - i,
    {
        let keep = !vec_has_char(chars, x[i]);
        if keep {
            let piece = s.substring_char(i, i + 1);
            out.append(piece);
        }
        proof {
            reveal(Seq::filter);
            assert(s@.take(i + 1).drop_last() =~= s@.take(i as int));
            assert(s@.take(i + 1).last() == s@[i as int]);
            if keep {
                assert(s@.subrange(i as int, i + 1) =~= seq![s@[i as int]]);
            }
        }
        i = i + 1;
    }
    assert(s@.take(x@.len() as int) =~= s@);
    out
}

/// Value of a nonempty string of ASCII decimal digits.
pub open spec fn digits_value(s: Seq<char>) -> int
    decreases s.len(),
{
    if s.len() == 0 {
        0
    } else {
        digits_value(s.drop_last()) * 10 + (s.last() as int - '0' as int)
    }
}

/// Every character is an ASCII decimal digit.
pub open spec fn all_digits(s: Seq<char>) -> bool {
    forall|i: int| 0 <= i < s.len() ==> '0' <= #[trigger] s[i] <= '9'
}

/// The value of a string of digits is never negative.
proof fn lemma_digits_nonneg(d: Seq<char>)
    requires
        all_digits(d),
    ensures
        digits_value(d) >= 0,
    decreases d.len(),
{
    if d.len() > 0 {
        assert(all_digits(d.drop_last())) by {
            assert forall|i: int| 0 <= i < d.drop_last().len() implies '0' <= #[trigger] d.drop_last()[i] <= '9' by {
                assert(d.drop_last()[i] == d[i]);
            }
        }
        lemma_digits_nonneg(d.drop_last());
        assert('0' <= d[d.len() - 1] <= '9');
    }
}

/// A prefix of a string of digits is worth no more than the whole string.
proof fn lemma_digits_prefix(d: Seq<char>, k: int)
    requires
        all_digits(d),
        0 <= k <= d.len(),
    ensures
        digits_value(d.take(k)) <= digits_value(d),
    decreases d.len() - k,
{
    if k < d.len() {
        lemma_digits_prefix(d, k + 1);
        let t = d.take(k + 1);
        assert(t.drop_last() =~= d.take(k));
        assert(t.last() == d[k]);
        assert(all_digits(d.take(k))) by {
            assert forall|i: int| 0 <= i < d.take(k).len() implies '0' <= #[trigger] d.take(k)[i] <= '9' by {
                assert(d.take(k)[i] == d[i]);
            }
        }
        lemma_digits_nonneg(d.take(k));
        assert('0' <= d[k] <= '9');
    } else {
        assert(d.take(k) =~= d);
    }
}

/// The value of the digits `x[start..]` when they are one or more ASCII digits
/// worth at most `u64::MAX`; `None` otherwise.
fn digits_to_u64(x: &Vec<char>, start: usize) -> (r: Option<u64>)
    requires
        start <= x@.len(),
    ensures
        ({
            let d = x@.subrange(start as int, x@.len() as int);
            r == (if d.len() > 0 && all_digits(d) && digits_value(d) <= u64::MAX {
                Some(digits_value(d) as u64)
            } else {
                None::<u64>
            })
        }),
{
    let n = x.len();
    let ghost d = x@.subrange(start as int, n as int);
    if start == n {
        return None;
    }
    let mut v: u64 = 0;
    let mut i: usize = start;
    assert(d.take(0) =~= Seq::<char>::empty());
    while i < n
        invariant
            n == x@.len(),
            d == x@.subrange(start as int, n as int),
            start <= i <= n,
            all_digits(d.take(i - start)),
            v == digits_value(d.take(i - start)),
        decreases n - i,
    {
        let c = x[i];
        assert(c == d[i - start]);
        if c < '0' || c > '9' {
            assert(!all_digits(d));
            return None;
        }
        let digit: u64 = (c as u32 - 48) as u64;
        let ghost t = d.take(i - start + 1);
        assert(t.drop_last() =~= d.take(i - start));
        assert(t.last() == c);
        assert(all_digits(t)) by {
            assert forall|j: int| 0 <= j < t.len() implies '0' <= #[trigger] t[j] <= '9' by {
                if j < t.len() - 1 {
                    assert(t[j] == d.take(i - start)[j]);
                }
            }
        }
        assert(digits_value(t) == v * 10 + digit);
        if v > (u64::MAX - digit) / 10 {
            proof {
                assert(v * 10 + digit > u64::MAX) by (nonlinear_arith)
                    requires
                        v > (u64::MAX - digit) / 10,
                        digit <= 9,
                ;
                if all_digits(d) {
                    lemma_digits_prefix(d, i - start + 1);
                }
            }
            return None;
        }
        assert(v * 10 + digit <= u64::MAX) by (nonlinear_arith)
            requires
                v <= (u64::MAX - digit) / 10,
                digit <= 9,
        ;
        v = v * 10 + digit;
        i = i + 1;
    }
    assert(d.take(n - start) =~= d);
    Some(v)
}

/// `str::parse::<u64>` with its error as `None`: `parsed_u64`, an optional `+`
/// then one or more ASCII digits worth at most `u64::MAX`.
pub(crate) fn parse_u64(s: &str) -> (r: Option<u64>)
    ensures
        r == parsed_u64(s@),
{
    let x = chars_of(s);
    let start: usize = if x.len() > 0 && x[0] == '+' { 1 } else { 0 };
    assert(without_plus(s@) =~= x@.subrange(start as int, x@.len() as int));
    digits_to_u64(&x, start)
}

/// What `str::parse::<i64>` returns (`None` for an error): an optional `+` or `-`,
/// then one or more ASCII digits whose signed value fits in `i64`.
pub open spec fn parsed_i64(s: Seq<char>) -> Option<i64> {
    if s.len() > 0 && s[0] == '-' {
        let d = s.skip(1);
        if d.len() > 0 && all_digits(d) && -digits_value(d) >= i64::MIN {
            Some((-digits_value(d)) as i64)
        } else {
            None
        }
    } else {
        let d = without_plus(s);
        if d.len() > 0 && all_digits(d) && digits_value(d) <= i64::MAX {
            Some(digits_value(d) as i64)
        } else {
            None
        }
    }
}

/// `str::parse::<i64>` with its error as `None`: `parsed_i64`, an optional `+`
/// or `-` then one or more ASCII digits whose signed value fits in `i64`.
pub(crate) fn parse_i64(s: &str) -> (r: Option<i64>)
    ensures
        r == parsed_i64(s@),
{
    let x = chars_of(s);
    let n = x.len();
    if n > 0 && x[0] == '-' {
        let ghost d = s@.skip(1);
        assert(d =~= x@.subrange(1, n as int));
        assert(s@.len() > 0 && s@[0] == '-');
        proof {
            if all_digits(d) {
                lemma_digits_nonneg(d);
            }
        }
        let m = digits_to_u64(&x, 1);
        if m.is_some() && m.unwrap() <= 0x8000_0000_0000_0000u64 {
            let v = m.unwrap();
            assert(v == digits_value(d));
            let w: i128 = -(v as i128);
            assert(w == -digits_value(d));
            let r = Some(w as i64);
            assert(r == parsed_i64(s@));
            r
        } else {
            assert(!(d.len() > 0 && all_digits(d) && -digits_value(d) >= i64::MIN));
            None
        }
    } else {
        assert(!(s@.len() > 0 && s@[0] == '-'));
        let start: usize = if n > 0 && x[0] == '+' { 1 } else { 0 };
        let ghost d = without_plus(s@);
        assert(d =~= x@.subrange(start as int, n as int));
        proof {
            if all_digits(d) {
                lemma_digits_nonneg(d);
            }
        }
        let m = digits_to_u64(&x, start);
        if m.is_some() && m.unwrap() <= 0x7fff_ffff_ffff_ffffu64 {
            let v = m.unwrap();
            assert(v == digits_value(d));
            let r = Some(v as i64);
            assert(r == parsed_i64(s@));
            r
        } else {
            assert(!(d.len() > 0 && all_digits(d) && digits_value(d) <= i64::MAX));
            None
        }
    }
}

/// The ASCII digit for `d` (0..10).
pub open spec fn digit_char(d: int) -> char {
    (d + 48) as char
}

/// Decimal writing of `n`: its digits, most significant first, with no leading
/// zero (`0` is written `0`).
pub open spec fn decimal_digits(n: nat) -> Seq<char>
    decreases n,
{
    if n < 10 {
        seq![digit_char(n as int)]
    } else {
        decimal_digits(n / 10).push(digit_char((n % 10) as int))
    }
}

/// What `u64::to_string` returns: the decimal writing of `n`.
pub open spec fn decimal_u64(n: u64) -> Seq<char> {
    decimal_digits(n as nat)
}

/// The one-character string of the ASCII digit `d`.
fn digit_str(d: u64) -> (r: &'static str)
    requires
        d < 10,
    ensures
        r@ == seq![digit_char(d as int)],
{
    proof {
        reveal_strlit("0");
        reveal_strlit("1");
        reveal_strlit("2");
        reveal_strlit("3");
        reveal_strlit("4");
        reveal_strlit("5");
        reveal_strlit("6");
        reveal_strlit("7");
        reveal_strlit("8");
        reveal_strlit("9");
    }
    let r = if d == 0 {
        "0"
    } else if d == 1 {
        "1"
    } else if d == 2 {
        "2"
    } else if d == 3 {
        "3"
    } else if d == 4 {
        "4"
    } else if d == 5 {
        "5"
    } else if d == 6 {
        "6"
    } else if d == 7 {
        "7"
    } else if d == 8 {
        "8"
    } else {
        "9"
    };
    assert(r@ =~= seq![digit_char(d as int)]);
    r
}

/// Appends the decimal writing of `n` to `out`.
fn write_decimal(n: u64, out: &mut String)
    ensures
        final(out)@ == old(out)@ + decimal_digits(n as nat),
    decreases n,
{
    if n >= 10 {
        write_decimal(n / 10, out);
    }
    let piece = digit_str(n % 10);
    out.append(piece);
    proof {
        if n >= 10 {
            assert(decimal_digits(n as nat) == decimal_digits((n / 10) as nat).push(digit_char((n % 10) as int)));
        } else {
            assert(decimal_digits(n as nat) == seq![digit_char(n as int)]);
        }
    }
    assert(final(out)@ =~= old(out)@ + decimal_digits(n as nat));
}

/// The decimal writing of `n`, as `u64::to_string` gives it.
pub(crate) fn u64_to_text(n: u64) -> (r: String)
    ensures
        r@ == decimal_u64(n),
{
    let mut out = String::new();
    write_decimal(n, &mut out);
    assert(out@ =~= decimal_u64(n));
    out
}

/// What `i64::to_string` returns: the decimal writing of `n`, after a `-` when
/// `n` is negative.
pub open spec fn decimal_i64(n: i64) -> Seq<char> {
    if n < 0 {
        seq!['-'] + decimal_digits((-n) as nat)
    } else {
        decimal_digits(n as nat)
    }
}

/// The decimal writing of `n`, as `i64::to_string` gives it.
pub(crate) fn i64_to_text(n: i64) -> (r: String)
    ensures
        r@ == decimal_i64(n),
{
    let mut out = String::new();
    if n < 0 {
        out.append("-");
        proof {
            reveal_strlit("-");
        }
        let a: u64 = (-(n as i128)) as u64;
        write_decimal(a, &mut out);
    } else {
        write_decimal(n as u64, &mut out);
    }
    assert(out@ =~= decimal_i64(n));
    out
}

/// A character with ASCII `A`..`Z` mapped to `a`..`z`; every other character is
/// kept.
pub open spec fn ascii_lower_char(c: char) -> char {
    if 'A' <= c <= 'Z' {
        ((c as u32) + 32) as char
    } else {
        c
    }
}

/// The two strings have the same length and agree at every position once ASCII
/// letters are taken in lower case.
pub open spec fn ascii_case_eq(a: Seq<char>, b: Seq<char>) -> bool {
    a.len() == b.len() && forall|i: int| 0 <= i < a.len() ==> ascii_lower_char(#[trigger] a[i]) == ascii_lower_char(b[i])
}

/// The code of `ascii_lower_char(c)`.
fn ascii_lower_code(c: char) -> (r: u32)
    ensures
        r == ascii_lower_char(c) as u32,
{
    let v = c as u32;
    if 65 <= v && v <= 90 {
        v + 32
    } else {
        v
    }
}

/// Whether the two strings agree once ASCII letters are taken in lower case.
pub(crate) fn str_eq_ignore_ascii_case(a: &str, b: &str) -> (r: bool)
    ensures
        r == ascii_case_eq(a@, b@),
{
    let x = chars_of(a);
    let y = chars_of(b);
    if x.len() != y.len() {
        return false;
    }
    let mut i: usize = 0;
    while i < x.len()
        invariant
            x@ == a@,
            y@ == b@,
            x@.len() == y@.len(),
            i <= x@.len(),
            forall|j: int| 0 <= j < i ==> ascii_lower_char(#[trigger] a@[j]) == ascii_lower_char(b@[j]),
        decreases x@.len() - i,
    {
        let l = ascii_lower_code(x[i]);
        let m = ascii_lower_code(y[i]);
        if l != m {
            return false;
        }
        i = i + 1;
    }
    true
}

/// A character of Unicode's `White_Space` property, the white space that
/// `str::trim` removes.
pub open spec fn is_white_space(c: char) -> bool {
    let v = c as u32;
    (0x09 <= v <= 0x0D) || v == 0x20 || v == 0x85 || v == 0xA0 || v == 0x1680 || (0x2000 <= v <= 0x200A) || v
        == 0x2028 || v == 0x2029 || v == 0x202F || v == 0x205F || v == 0x3000
}

/// `s` without its leading white space.
pub open spec fn trim_start(s: Seq<char>) -> Seq<char>
    decreases s.len(),
{
    if s.len() > 0 && is_white_space(s[0]) {
        trim_start(s.drop_first())
    } else {
        s
    }
}

/// `s` without its trailing white space.
pub open spec fn trim_end(s: Seq<char>) -> Seq<char>
    decreases s.len(),
{
    if s.len() > 0 && is_white_space(s.last()) {
        trim_end(s.drop_last())
    } else {
        s
    }
}

/// `s` without leading and trailing white space (what `str::trim` returns).
pub open spec fn trimmed(s: Seq<char>) -> Seq<char> {
    trim_end(trim_start(s))
}

/// Whether `c` is white space (`is_white_space`).
fn char_is_white_space(c: char) -> (r: bool)
    ensures
        r == is_white_space(c),
{
    let v = c as u32;
    (0x09 <= v && v <= 0x0D) || v == 0x20 || v == 0x85 || v == 0xA0 || v == 0x1680 || (0x2000 <= v && v <= 0x200A)
        || v == 0x2028 || v == 0x2029 || v == 0x202F || v == 0x205F || v == 0x3000
}

/// The slice of `s` without leading and trailing white space.
pub(crate) fn trim_str(s: &str) -> (r: &str)
    ensures
        r@ == trimmed(s@),
{
    let x = chars_of(s);
    let n = x.len();
    let mut a: usize = 0;
    assert(s@.skip(0) =~= s@);
    while a < n && char_is_white_space(x[a])
        invariant
            x@ == s@,
            n == x@.len(),
            a <= n,
            trim_start(s@) == trim_start(s@.skip(a as int)),
        decreases n - a,
    {
        assert(s@.skip(a as int).drop_first() =~= s@.skip(a + 1));
        a = a + 1;
    }
    if a == n {
        assert(s@.skip(a as int) =~= Seq::<char>::empty());
    }
    assert(trim_start(s@) == s@.subrange(a as int, n as int)) by {
        assert(s@.skip(a as int) =~= s@.subrange(a as int, n as int));
    }
    let mut b: usize = n;
    while b > a && char_is_white_space(x[b - 1])
        invariant
            x@ == s@,
            n == x@.len(),
            a <= b <= n,
            trimmed(s@) == trim_end(s@.subrange(a as int, b as int)),
        decreases b - a,
    {
        assert(s@.subrange(a as int, b as int).drop_last() =~= s@.subrange(a as int, b - 1));
        b = b - 1;
    }
    if b == a {
        assert(s@.subrange(a as int, b as int) =~= Seq::<char>::empty());
    }
    s.substring_char(a, b)
}

/// Whether `c` occurs in `s`.
pub(crate) fn str_contains_char(s: &str, c: char) -> (r: bool)
    ensures
        r == s@.contains(c),
{
    let x = chars_of(s);
    vec_has_char(&x, c)
}

/// `s` with every `from` replaced by `to`.
pub open spec fn replace_char(s: Seq<char>, from: char, to: Seq<char>) -> Seq<char>
    decreases s.len(),
{
    if s.len() == 0 {
        s
    } else {
        replace_char(s.drop_last(), from, to) + (if s.last() == from { to } else { seq![s.last()] })
    }
}

/// `s` with every occurrence of `from` replaced by `to`.
pub(crate) fn str_replace_char(s: &str, from: char, to: &str) -> (r: String)
    ensures
        r@ == replace_char(s@, from, to@),
{
    let x = chars_of(s);
    let mut out = String::new();
    let mut i: usize = 0;
    while i < x.len()
        invariant
            x@ == s@,
            i <= x@.len(),
            out@ == replace_char(s@.take(i as int), from, to@),
        decreases x@.len() - i,
    {
        if x[i] == from {
            out.append(to);
        } else {
            let piece = s.substring_char(i, i + 1);
            out.append(piece);
            assert(s@.subrange(i as int, i + 1) =~= seq![s@[i as int]]);
        }
        assert(s@.take(i + 1).drop_last() =~= s@.take(i as int));
        assert(s@.take(i + 1).last() == s@[i as int]);
        i = i + 1;
    }
    assert(s@.take(x@.len() as int) =~= s@);
    out
}

} // verus!
