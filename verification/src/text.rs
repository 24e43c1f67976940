//! Character-level helpers on `String`/`str`, each with the mathematical
//! statement of what it computes over `Seq<char>`.
use vstd::prelude::*;
use vstd::string::StringExecFns;

verus! {

/// `String::push` appends one character (std documentation).
pub assume_specification[ String::push ](s: &mut String, ch: char)
    ensures
        final(s)@ == old(s)@.push(ch),
;

/// The characters of `s`, in order, as `str::chars` yields them.
#[verifier::external_body]
pub(crate) fn chars_of(s: &str) -> (v: Vec<char>)
    ensures
        v@ == s@,
{
    s.chars().collect()
}

/// An owned copy of `s`.
pub fn owned(s: &str) -> (r: String)
    ensures
        r@ == s@,
{
    s.to_owned()
}

/// The string whose characters are `v`.
pub fn string_of_chars(v: &Vec<char>) -> (r: String)
    ensures
        r@ == v@,
{
    let mut r = String::new();
    let mut i: usize = 0;
    while i < v.len()
        invariant
            i <= v.len(),
            r@ == v@.subrange(0, i as int),
        decreases v.len() - i,
    {
        r.push(v[i]);
        i = i + 1;
    }
    r
}

/// Appends `s` to `out`.
pub fn push_str(out: &mut String, s: &str)
    ensures
        final(out)@ == old(out)@ + s@,
{
    out.append(s);
}

/// Character-wise equality of two strings.
pub fn str_eq(a: &str, b: &str) -> (r: bool)
    ensures
        r == (a@ == b@),
{
    let x = chars_of(a);
    let y = chars_of(b);
    if x.len() != y.len() {
        return false;
    }
    let mut i: usize = 0;
    while i < x.len()
        invariant
            x@ == a@,
            y@ == b@,
            x.len() == y.len(),
            i <= x.len(),
            forall|j: int| 0 <= j < i ==> x@[j] == y@[j],
        decreases x.len() - i,
    {
        if x[i] != y[i] {
            return false;
        }
        i = i + 1;
    }
    assert(x@ =~= y@);
    true
}

/// Index of the last occurrence of `c` in `s`, or -1.
pub open spec fn last_index_of(s: Seq<char>, c: char) -> int
    decreases s.len(),
{
    if s.len() == 0 {
        -1
    } else if s.last() == c {
        s.len() - 1
    } else {
        last_index_of(s.drop_last(), c)
    }
}

pub proof fn lemma_last_index_of(s: Seq<char>, c: char)
    ensures
        -1 <= last_index_of(s, c) < s.len(),
        last_index_of(s, c) >= 0 ==> s[last_index_of(s, c)] == c,
        forall|j: int| last_index_of(s, c) < j < s.len() ==> s[j] != c,
    decreases s.len(),
{
    if s.len() > 0 && s.last() != c {
        lemma_last_index_of(s.drop_last(), c);
        assert forall|j: int| last_index_of(s, c) < j < s.len() implies s[j] != c by {
            if j < s.len() - 1 {
                assert(s[j] == s.drop_last()[j]);
            }
        }
    }
}

pub proof fn lemma_last_index_exact(s: Seq<char>, c: char, k: int)
    requires
        -1 <= k < s.len(),
        k >= 0 ==> s[k] == c,
        forall|j: int| k < j < s.len() ==> s[j] != c,
    ensures
        last_index_of(s, c) == k,
    decreases s.len(),
{
    if s.len() > 0 && k < s.len() - 1 {
        assert forall|j: int| k < j < s.len() - 1 implies s.drop_last()[j] != c by {
            assert(s.drop_last()[j] == s[j]);
        }
        lemma_last_index_exact(s.drop_last(), c, k);
    }
}

/// The part of a qualified name after its last `:` (the whole name when it
/// has none): `xsd:string` -> `string`.
pub open spec fn local_part(s: Seq<char>) -> Seq<char> {
    s.subrange(last_index_of(s, ':') + 1, s.len() as int)
}

/// `s` with any namespace prefix removed.
pub fn strip_ns(s: &str) -> (r: String)
    ensures
        r@ == local_part(s@),
{
    let v = chars_of(s);
    proof {
        lemma_last_index_of(v@, ':');
    }
    let mut i: usize = v.len();
    while i > 0 && v[i - 1] != ':'
        invariant
            v@ == s@,
            i <= v.len(),
            forall|j: int| i <= j < v.len() ==> v@[j] != ':',
        decreases i,
    {
        i = i - 1;
    }
    // `i` is one past the last colon (or 0 when there is none).
    proof {
        lemma_last_index_exact(v@, ':', i - 1);
    }
    let mut r = String::new();
    let mut k: usize = i;
    while k < v.len()
        invariant
            v@ == s@,
            i <= k <= v.len(),
            r@ == v@.subrange(i as int, k as int),
        decreases v.len() - k,
    {
        r.push(v[k]);
        k = k + 1;
    }
    r
}

pub open spec fn is_ascii_digit(c: char) -> bool {
    '0' <= c <= '9'
}

pub open spec fn is_ascii_lowercase(c: char) -> bool {
    'a' <= c <= 'z'
}

/// The upper-case form of an ASCII lower-case letter.
pub open spec fn ascii_upper(c: char) -> char {
    ((c as u32) - 32) as char
}

pub fn ascii_upper_exec(c: char) -> (r: char)
    requires
        is_ascii_lowercase(c),
    ensures
        r == ascii_upper(c),
{
    let n: u32 = (c as u32) - 32;
    let b: u8 = n as u8;
    b as char
}

/// Decimal value of a run of ASCII digits.
pub open spec fn digits_value(s: Seq<char>) -> nat
    decreases s.len(),
{
    if s.len() == 0 {
        0
    } else {
        digits_value(s.drop_last()) * 10 + ((s.last() as u32) - ('0' as u32)) as nat
    }
}

pub open spec fn all_digits(s: Seq<char>) -> bool {
    forall|i: int| 0 <= i < s.len() ==> is_ascii_digit(#[trigger] s[i])
}

/// What `str::parse::<u64>` returns: an optional `+`, then at least one ASCII
/// digit and nothing else, with a value that fits in 64 bits.
pub open spec fn parse_u64_spec(s: Seq<char>) -> Option<u64> {
    let d = if s.len() > 0 && s[0] == '+' {
        s.drop_first()
    } else {
        s
    };
    if d.len() == 0 || !all_digits(d) {
        None
    } else if digits_value(d) <= u64::MAX {
        Some(digits_value(d) as u64)
    } else {
        None
    }
}

proof fn lemma_digits_value_grows(s: Seq<char>, i: int)
    requires
        0 <= i <= s.len(),
    ensures
        digits_value(s.subrange(0, i)) <= digits_value(s),
    decreases s.len() - i,
{
    if i < s.len() {
        lemma_digits_value_grows(s, i + 1);
        assert(s.subrange(0, i + 1).drop_last() =~= s.subrange(0, i));
    } else {
        assert(s.subrange(0, i) =~= s);
    }
}

/// Parses a decimal `u64` as `str::parse::<u64>().ok()` does.
pub fn parse_u64(s: &str) -> (r: Option<u64>)
    ensures
        r == parse_u64_spec(s@),
{
    let v = chars_of(s);
    let start: usize = if v.len() > 0 && v[0] == '+' {
        1
    } else {
        0
    };
    let ghost d = if s@.len() > 0 && s@[0] == '+' {
        s@.drop_first()
    } else {
        s@
    };
    assert(d =~= v@.subrange(start as int, v.len() as int));
    if start == v.len() {
        return None;
    }
    let mut acc: u64 = 0;
    let mut i: usize = start;
    while i < v.len()
        invariant
            v@ == s@,
            d =~= v@.subrange(start as int, v.len() as int),
            d == (if s@.len() > 0 && s@[0] == '+' {
                s@.drop_first()
            } else {
                s@
            }),
            start < v.len(),
            start <= i <= v.len(),
            all_digits(v@.subrange(start as int, i as int)),
            acc as nat == digits_value(v@.subrange(start as int, i as int)),
        decreases v.len() - i,
    {
        let c = v[i];
        assert(v@.subrange(start as int, i + 1).drop_last() =~= v@.subrange(start as int, i as int));
        if !('0' <= c && c <= '9') {
            assert(d[i - start] == c);
            assert(!is_ascii_digit(d[i - start]));
            assert(!all_digits(d));
            return None;
        }
        let digit: u64 = ((c as u32) - ('0' as u32)) as u64;
        if acc > (u64::MAX - digit) / 10 {
            proof {
                assert(acc * 10 + digit > u64::MAX);
                assert(digits_value(v@.subrange(start as int, i + 1)) == acc * 10 + digit);
                assert(digits_value(v@.subrange(start as int, i + 1)) > u64::MAX);
                lemma_digits_value_grows(d, i + 1 - start);
                assert(d.subrange(0, i + 1 - start) =~= v@.subrange(start as int, i + 1));
                if !all_digits(d) {
                } else {
                    assert(digits_value(d) > u64::MAX);
                }
            }
            return None;
        }
        acc = acc * 10 + digit;
        i = i + 1;
        assert(all_digits(v@.subrange(start as int, i as int))) by {
            assert forall|j: int| 0 <= j < i - start implies is_ascii_digit(
                #[trigger] v@.subrange(start as int, i as int)[j],
            ) by {
                if j < i - 1 - start {
                    assert(v@.subrange(start as int, i as int)[j] == v@.subrange(
                        start as int,
                        i - 1,
                    )[j]);
                }
            }
        }
    }
    assert(v@.subrange(start as int, v.len() as int) =~= d);
    Some(acc)
}

/// The decimal digits of `n`, as `{}` formats an unsigned integer.
pub open spec fn decimal(n: nat) -> Seq<char>
    decreases n,
{
    if n < 10 {
        seq![(('0' as u32) + n) as char]
    } else {
        decimal(n / 10).push((('0' as u32) + (n % 10)) as char)
    }
}

/// Appends the decimal form of `n` to `out`.
pub fn push_decimal(out: &mut String, n: u128)
    ensures
        final(out)@ == old(out)@ + decimal(n as nat),
    decreases n,
{
    if n >= 10 {
        push_decimal(out, n / 10);
    }
    let d: u8 = (n % 10) as u8;
    let c: char = (48u8 + d) as char;
    assert(c == (('0' as u32) + (n % 10)) as char);
    out.push(c);
    assert(final(out)@ =~= old(out)@ + decimal(n as nat));
}

/// `char::is_whitespace`: the Unicode `White_Space` property.
pub open spec fn is_ws(c: char) -> bool {
    ||| '\t' <= c <= '\r'
    ||| c == ' '
    ||| c == '\u{85}'
    ||| c == '\u{A0}'
    ||| c == '\u{1680}'
    ||| '\u{2000}' <= c <= '\u{200A}'
    ||| c == '\u{2028}'
    ||| c == '\u{2029}'
    ||| c == '\u{202F}'
    ||| c == '\u{205F}'
    ||| c == '\u{3000}'
}

pub fn is_ws_exec(c: char) -> (r: bool)
    ensures
        r == is_ws(c),
{
    ('\t' <= c && c <= '\r') || c == ' ' || c == '\u{85}' || c == '\u{A0}' || c == '\u{1680}' || (
    '\u{2000}' <= c && c <= '\u{200A}') || c == '\u{2028}' || c == '\u{2029}' || c == '\u{202F}'
        || c == '\u{205F}' || c == '\u{3000}'
}

/// Number of leading whitespace characters of `s`.
pub open spec fn leading_ws(s: Seq<char>) -> nat
    decreases s.len(),
{
    if s.len() > 0 && is_ws(s[0]) {
        1 + leading_ws(s.drop_first())
    } else {
        0
    }
}

/// Number of trailing whitespace characters of `s`.
pub open spec fn trailing_ws(s: Seq<char>) -> nat
    decreases s.len(),
{
    if s.len() > 0 && is_ws(s.last()) {
        1 + trailing_ws(s.drop_last())
    } else {
        0
    }
}

/// `str::trim`: `s` without leading and trailing whitespace.
pub open spec fn trim(s: Seq<char>) -> Seq<char> {
    let a = leading_ws(s);
    if a == s.len() {
        Seq::empty()
    } else {
        s.subrange(a as int, s.len() - trailing_ws(s))
    }
}

proof fn lemma_leading_ws(s: Seq<char>)
    ensures
        leading_ws(s) <= s.len(),
        forall|j: int| 0 <= j < leading_ws(s) ==> is_ws(#[trigger] s[j]),
        leading_ws(s) < s.len() ==> !is_ws(s[leading_ws(s) as int]),
    decreases s.len(),
{
    if s.len() > 0 && is_ws(s[0]) {
        lemma_leading_ws(s.drop_first());
        assert forall|j: int| 0 <= j < leading_ws(s) implies is_ws(#[trigger] s[j]) by {
            if j > 0 {
                assert(s[j] == s.drop_first()[j - 1]);
            }
        }
    }
}

proof fn lemma_trailing_ws(s: Seq<char>)
    ensures
        trailing_ws(s) <= s.len(),
        forall|j: int| s.len() - trailing_ws(s) <= j < s.len() ==> is_ws(#[trigger] s[j]),
        trailing_ws(s) < s.len() ==> !is_ws(s[s.len() - trailing_ws(s) - 1]),
    decreases s.len(),
{
    if s.len() > 0 && is_ws(s.last()) {
        lemma_trailing_ws(s.drop_last());
        assert forall|j: int| s.len() - trailing_ws(s) <= j < s.len() implies is_ws(
            #[trigger] s[j],
        ) by {
            if j < s.len() - 1 {
                assert(s[j] == s.drop_last()[j]);
            }
        }
    }
}

proof fn lemma_leading_ws_exact(s: Seq<char>, a: int)
    requires
        0 <= a <= s.len(),
        forall|j: int| 0 <= j < a ==> is_ws(#[trigger] s[j]),
        a < s.len() ==> !is_ws(s[a]),
    ensures
        leading_ws(s) == a,
    decreases a,
{
    if a > 0 {
        assert forall|j: int| 0 <= j < a - 1 implies is_ws(#[trigger] s.drop_first()[j]) by {
            assert(s.drop_first()[j] == s[j + 1]);
        }
        if a - 1 < s.drop_first().len() {
            assert(s.drop_first()[a - 1] == s[a]);
        }
        lemma_leading_ws_exact(s.drop_first(), a - 1);
    }
}

proof fn lemma_trailing_ws_exact(s: Seq<char>, b: int)
    requires
        0 <= b <= s.len(),
        forall|j: int| b <= j < s.len() ==> is_ws(#[trigger] s[j]),
        b > 0 ==> !is_ws(s[b - 1]),
    ensures
        trailing_ws(s) == s.len() - b,
    decreases s.len() - b,
{
    if b < s.len() {
        assert forall|j: int| b <= j < s.len() - 1 implies is_ws(#[trigger] s.drop_last()[j]) by {
            assert(s.drop_last()[j] == s[j]);
        }
        if b > 0 {
            assert(s.drop_last()[b - 1] == s[b - 1]);
        }
        lemma_trailing_ws_exact(s.drop_last(), b);
    }
}

/// `s.trim()` as an owned string.
pub fn trim_exec(s: &str) -> (r: String)
    ensures
        r@ == trim(s@),
{
    let v = chars_of(s);
    let mut a: usize = 0;
    while a < v.len() && is_ws_exec(v[a])
        invariant
            v@ == s@,
            a <= v.len(),
            forall|j: int| 0 <= j < a ==> is_ws(#[trigger] v@[j]),
        decreases v.len() - a,
    {
        a = a + 1;
    }
    proof {
        lemma_leading_ws_exact(v@, a as int);
    }
    if a == v.len() {
        return String::new();
    }
    let mut b: usize = v.len();
    while b > a && is_ws_exec(v[b - 1])
        invariant
            v@ == s@,
            a < v.len(),
            !is_ws(v@[a as int]),
            a <= b <= v.len(),
            forall|j: int| b <= j < v.len() ==> is_ws(#[trigger] v@[j]),
        decreases b,
    {
        b = b - 1;
    }
    proof {
        lemma_trailing_ws_exact(v@, b as int);
    }
    let mut r = String::new();
    let mut k: usize = a;
    while k < b
        invariant
            v@ == s@,
            a <= k <= b <= v.len(),
            r@ == v@.subrange(a as int, k as int),
        decreases b - k,
    {
        r.push(v[k]);
        k = k + 1;
    }
    r
}

/// Words of `s` split at whitespace, with whether `s` ends inside a word.
pub open spec fn split_state(s: Seq<char>) -> (Seq<Seq<char>>, bool)
    decreases s.len(),
{
    if s.len() == 0 {
        (Seq::empty(), false)
    } else {
        let (w, in_word) = split_state(s.drop_last());
        let c = s.last();
        if is_ws(c) {
            (w, false)
        } else if in_word && w.len() > 0 {
            (w.update(w.len() - 1, w.last().push(c)), true)
        } else {
            (w.push(seq![c]), true)
        }
    }
}

/// `str::split_whitespace`, collected: the maximal runs of non-whitespace
/// characters, in order.
pub open spec fn split_ws(s: Seq<char>) -> Seq<Seq<char>> {
    split_state(s).0
}

/// `s.split_whitespace()`, collected as owned strings.
pub fn split_whitespace_exec(s: &str) -> (r: Vec<String>)
    ensures
        r@.len() == split_ws(s@).len(),
        forall|i: int| 0 <= i < r@.len() ==> #[trigger] r@[i]@ == split_ws(s@)[i],
{
    let v = chars_of(s);
    let mut ws: Vec<String> = Vec::new();
    let mut in_word = false;
    let mut i: usize = 0;
    while i < v.len()
        invariant
            v@ == s@,
            i <= v.len(),
            ws@.len() == split_state(v@.subrange(0, i as int)).0.len(),
            forall|j: int|
                0 <= j < ws@.len() ==> #[trigger] ws@[j]@ == split_state(
                    v@.subrange(0, i as int),
                ).0[j],
            in_word == split_state(v@.subrange(0, i as int)).1,
        decreases v.len() - i,
    {
        let c = v[i];
        assert(v@.subrange(0, i + 1).drop_last() =~= v@.subrange(0, i as int));
        let ghost old_ws = ws@;
        if is_ws_exec(c) {
            in_word = false;
        } else if in_word && ws.len() > 0 {
            let k = ws.len() - 1;
            let mut last = ws.pop().unwrap();
            last.push(c);
            ws.push(last);
            proof {
                assert forall|j: int| 0 <= j < ws@.len() implies #[trigger] ws@[j]@
                    == split_state(v@.subrange(0, i + 1)).0[j] by {
                    if j < k {
                        assert(ws@[j] == old_ws[j]);
                    }
                }
            }
        } else {
            let mut one = String::new();
            one.push(c);
            ws.push(one);
            in_word = true;
            proof {
                assert forall|j: int| 0 <= j < ws@.len() implies #[trigger] ws@[j]@
                    == split_state(v@.subrange(0, i + 1)).0[j] by {
                    if j < old_ws.len() {
                        assert(ws@[j] == old_ws[j]);
                    } else {
                        assert(ws@[j]@ =~= seq![c]);
                    }
                }
            }
        }
        i = i + 1;
    }
    assert(v@.subrange(0, v.len() as int) =~= s@);
    ws
}

} // verus!
