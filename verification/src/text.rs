//! Verified text utilities: whitespace classification, decimal rendering of
//! 64-bit integers, integer parsing, trimming, and splitting source text into
//! lines and words.  Each executable function is specified against a spec
//! function over `Seq<char>`.

use vstd::prelude::*;
use vstd::string::StrSliceExecFns;

verus! {

/// The Unicode `White_Space` characters, the set that `char::is_whitespace`
/// recognizes.
pub open spec fn is_space(c: char) -> bool {
    let u = c as u32;
    u == 0x20 || (0x09 <= u && u <= 0x0d) || u == 0x85 || u == 0xa0 || u == 0x1680 || (0x2000
        <= u && u <= 0x200a) || u == 0x2028 || u == 0x2029 || u == 0x202f || u == 0x205f || u
        == 0x3000
}

/// Decides `is_space`.
pub fn is_space_char(c: char) -> (r: bool)
    ensures
        r == is_space(c),
{
    let u = c as u32;
    u == 0x20 || (0x09 <= u && u <= 0x0d) || u == 0x85 || u == 0xa0 || u == 0x1680 || (0x2000
        <= u && u <= 0x200a) || u == 0x2028 || u == 0x2029 || u == 0x202f || u == 0x205f || u
        == 0x3000
}

/// Relies on `alloc::string::String::push`: appends one character to the end
/// of the string.
#[verifier::external_body]
pub fn push_char(s: &mut String, c: char)
    ensures
        final(s)@ == old(s)@.push(c),
{
    s.push(c);
}

/// A string holding exactly one character.
pub fn char_string(c: char) -> (r: String)
    ensures
        r@ == seq![c],
{
    let mut s = String::new();
    push_char(&mut s, c);
    proof {
        assert(s@ =~= seq![c]);
    }
    s
}

/// The decimal digit character for `d`, when `0 <= d <= 9`.
pub open spec fn digit_char(d: int) -> char {
    (48 + d) as char
}

/// The decimal digit string of a non-negative integer, most significant digit
/// first.
pub open spec fn dec_digits(n: int) -> Seq<char>
    decreases n,
{
    if n < 10 {
        seq![digit_char(n)]
    } else {
        dec_digits(n / 10).push(digit_char(n % 10))
    }
}

/// The decimal rendering of an `i64`, with a leading minus sign when the value
/// is negative.
pub open spec fn dec_int(n: i64) -> Seq<char> {
    if n < 0 {
        seq!['-'] + dec_digits(-(n as int))
    } else {
        dec_digits(n as int)
    }
}

/// Appends the decimal digits of `m` to `out`.
fn push_dec_digits(out: &mut String, m: u64)
    ensures
        final(out)@ == old(out)@ + dec_digits(m as int),
    decreases m,
{
    if m < 10 {
        let d: u8 = 48 + (m as u8);
        push_char(out, d as char);
        proof {
            assert(final(out)@ =~= old(out)@ + dec_digits(m as int));
        }
    } else {
        push_dec_digits(out, m / 10);
        let d: u8 = 48 + ((m % 10) as u8);
        push_char(out, d as char);
        proof {
            assert(final(out)@ =~= old(out)@ + dec_digits(m as int));
        }
    }
}

/// Renders `n` in decimal, as `i64`'s standard formatting does.
pub fn dec_string(n: i64) -> (r: String)
    ensures
        r@ == dec_int(n),
{
    let mut out = String::new();
    if n < 0 {
        push_char(&mut out, '-');
        let mag: u64 = ((-(n + 1)) as u64) + 1;
        push_dec_digits(&mut out, mag);
        proof {
            assert(out@ =~= dec_int(n));
        }
    } else {
        push_dec_digits(&mut out, n as u64);
        proof {
            assert(out@ =~= dec_int(n));
        }
    }
    out
}

/// Character-wise equality of two string slices.
pub fn str_eq(a: &str, b: &str) -> (r: bool)
    ensures
        r == (a@ == b@),
{
    let la = a.unicode_len();
    let lb = b.unicode_len();
    if la != lb {
        return false;
    }
    let mut i: usize = 0;
    while i < la
        invariant
            la == a@.len(),
            la == b@.len(),
            i <= la,
            forall|j: int| 0 <= j < i ==> a@[j] == b@[j],
        decreases la - i,
    {
        if a.get_char(i) != b.get_char(i) {
            return false;
        }
        i += 1;
    }
    proof {
        assert(a@ =~= b@);
    }
    true
}


/// Whether `c` is a decimal digit.
pub open spec fn is_digit(c: char) -> bool {
    48 <= c as u32 && c as u32 <= 57
}

/// The numeric value of a decimal digit character.
pub open spec fn digit_val(c: char) -> int {
    c as u32 - 48
}

/// The value of a digit string, most significant digit first.
pub open spec fn digits_val(s: Seq<char>) -> int
    decreases s.len(),
{
    if s.len() == 0 {
        0
    } else {
        digits_val(s.drop_last()) * 10 + digit_val(s.last())
    }
}

/// Whether every character of `s` is a decimal digit.
pub open spec fn all_digits(s: Seq<char>) -> bool {
    forall|i: int| 0 <= i < s.len() ==> is_digit(s[i])
}

/// The value `s` denotes as a base-10 `i64`, exactly as `i64`'s standard
/// parsing reads it: an optional sign, then at least one digit, and the
/// resulting value within the 64-bit signed range; `None` otherwise.
pub open spec fn parse_int(s: Seq<char>) -> Option<int> {
    if s.len() == 0 {
        None
    } else {
        let neg = s[0] == '-';
        let ds = if s[0] == '-' || s[0] == '+' {
            s.subrange(1, s.len() as int)
        } else {
            s
        };
        if ds.len() == 0 || !all_digits(ds) {
            None
        } else {
            let v = if neg {
                -digits_val(ds)
            } else {
                digits_val(ds)
            };
            if i64::MIN <= v && v <= i64::MAX {
                Some(v)
            } else {
                None
            }
        }
    }
}

proof fn lemma_digits_val_nonneg(s: Seq<char>)
    requires
        all_digits(s),
    ensures
        digits_val(s) >= 0,
    decreases s.len(),
{
    if s.len() > 0 {
        assert(all_digits(s.drop_last()));
        lemma_digits_val_nonneg(s.drop_last());
        assert(digit_val(s.last()) >= 0);
    }
}

proof fn lemma_digits_val_extend(s: Seq<char>, k: int)
    requires
        0 <= k < s.len(),
    ensures
        digits_val(s.subrange(0, k + 1)) == digits_val(s.subrange(0, k)) * 10 + digit_val(s[k]),
{
    let p = s.subrange(0, k + 1);
    assert(p.drop_last() =~= s.subrange(0, k));
    assert(p.last() == s[k]);
}

proof fn lemma_digits_val_monotone(s: Seq<char>, k: int)
    requires
        all_digits(s),
        0 <= k <= s.len(),
    ensures
        digits_val(s) >= digits_val(s.subrange(0, k)),
    decreases s.len() - k,
{
    if k < s.len() {
        lemma_digits_val_extend(s, k);
        let p = s.subrange(0, k);
        assert(all_digits(p));
        lemma_digits_val_nonneg(p);
        assert(digits_val(s.subrange(0, k + 1)) >= digits_val(p));
        lemma_digits_val_monotone(s, k + 1);
    } else {
        assert(s.subrange(0, k) =~= s);
    }
}

/// Parses `s` as a base-10 `i64`, exactly as `parse_int` describes.
pub fn parse_i64(s: &str) -> (r: Option<i64>)
    ensures
        match parse_int(s@) {
            Some(v) => r matches Some(x) && x as int == v,
            None => r is None,
        },
{
    let len = s.unicode_len();
    if len == 0 {
        return None;
    }
    let c0 = s.get_char(0);
    let neg = c0 == '-';
    let start: usize = if c0 == '-' || c0 == '+' {
        1
    } else {
        0
    };
    if start >= len {
        return None;
    }
    let ghost ds = if start == 1 {
        s@.subrange(1, s@.len() as int)
    } else {
        s@
    };
    let limit: u64 = if neg {
        0x8000_0000_0000_0000
    } else {
        0x7fff_ffff_ffff_ffff
    };
    let mut mag: u64 = 0;
    let mut i = start;
    while i < len
        invariant
            len == s@.len(),
            start <= i <= len,
            start < len,
            start == 0 || start == 1,
            neg == (s@[0] == '-'),
            (start == 1) == (s@[0] == '-' || s@[0] == '+'),
            ds == if start == 1 {
                s@.subrange(1, s@.len() as int)
            } else {
                s@
            },
            ds.len() == len - start,
            forall|j: int| 0 <= j < ds.len() ==> ds[j] == s@[start + j],
            forall|j: int| 0 <= j < i - start ==> is_digit(ds[j]),
            mag as int == digits_val(ds.subrange(0, i - start)),
            mag <= limit,
            limit == if neg {
                0x8000_0000_0000_0000u64
            } else {
                0x7fff_ffff_ffff_ffffu64
            },
        decreases len - i,
    {
        let c = s.get_char(i);
        let u = c as u32;
        if u < 48 || u > 57 {
            assert(!is_digit(ds[i - start]));
            return None;
        }
        let d: u64 = (u - 48) as u64;
        proof {
            assert(is_digit(ds[i - start]));
            lemma_digits_val_extend(ds, i - start);
        }
        let next = match mag.checked_mul(10) {
            Some(m) => m.checked_add(d),
            None => None,
        };
        match next {
            Some(m2) if m2 <= limit => {
                mag = m2;
            },
            _ => {
                proof {
                    let k = i - start + 1;
                    assert(forall|j: int| 0 <= j < k ==> is_digit(ds[j]));
                    assert(digits_val(ds.subrange(0, k)) > limit as int);
                    if all_digits(ds) {
                        lemma_digits_val_monotone(ds, k);
                        assert(digits_val(ds) > limit as int);
                    }
                }
                return None;
            },
        }
        i += 1;
    }
    proof {
        assert(ds.subrange(0, ds.len() as int) =~= ds);
        assert(all_digits(ds));
        assert(mag as int == digits_val(ds));
    }
    if neg {
        if mag == 0x8000_0000_0000_0000 {
            Some(i64::MIN)
        } else {
            Some(-(mag as i64))
        }
    } else {
        Some(mag as i64)
    }
}


/// `s` with its leading whitespace removed.
pub open spec fn trim_front(s: Seq<char>) -> Seq<char>
    decreases s.len(),
{
    if s.len() == 0 {
        s
    } else if is_space(s[0]) {
        trim_front(s.subrange(1, s.len() as int))
    } else {
        s
    }
}

/// `s` with its trailing whitespace removed.
pub open spec fn trim_back(s: Seq<char>) -> Seq<char>
    decreases s.len(),
{
    if s.len() == 0 {
        s
    } else if is_space(s.last()) {
        trim_back(s.drop_last())
    } else {
        s
    }
}

/// `s` with surrounding whitespace removed, as `str::trim` yields it.
pub open spec fn trimmed(s: Seq<char>) -> Seq<char> {
    trim_back(trim_front(s))
}

proof fn lemma_trim_front_skip(s: Seq<char>, i: int)
    requires
        0 <= i <= s.len(),
        forall|j: int| 0 <= j < i ==> is_space(s[j]),
    ensures
        trim_front(s) == trim_front(s.subrange(i, s.len() as int)),
    decreases i,
{
    if i > 0 {
        let tail = s.subrange(1, s.len() as int);
        assert(trim_front(s) == trim_front(tail));
        assert(forall|j: int| 0 <= j < i - 1 ==> is_space(tail[j]));
        lemma_trim_front_skip(tail, i - 1);
        assert(tail.subrange(i - 1, tail.len() as int) =~= s.subrange(i, s.len() as int));
    } else {
        assert(s.subrange(0, s.len() as int) =~= s);
    }
}

proof fn lemma_trim_back_skip(s: Seq<char>, j: int)
    requires
        0 <= j <= s.len(),
        forall|k: int| j <= k < s.len() ==> is_space(s[k]),
    ensures
        trim_back(s) == trim_back(s.subrange(0, j)),
    decreases s.len() - j,
{
    if j < s.len() {
        assert(is_space(s.last()));
        assert(trim_back(s) == trim_back(s.drop_last()));
        assert(s.drop_last() =~= s.subrange(0, s.len() - 1));
        lemma_trim_back_skip(s.drop_last(), j);
        assert(s.drop_last().subrange(0, j) =~= s.subrange(0, j));
    } else {
        assert(s.subrange(0, j) =~= s);
    }
}

/// Removes surrounding whitespace, exactly as `trimmed` describes.
pub fn trim_str<'a>(s: &'a str) -> (r: &'a str)
    ensures
        r@ == trimmed(s@),
{
    let len = s.unicode_len();
    let mut i: usize = 0;
    while i < len && is_space_char(s.get_char(i))
        invariant
            len == s@.len(),
            i <= len,
            forall|j: int| 0 <= j < i ==> is_space(s@[j]),
        decreases len - i,
    {
        i += 1;
    }
    let mut j: usize = len;
    while j > i && is_space_char(s.get_char(j - 1))
        invariant
            len == s@.len(),
            i <= j <= len,
            forall|k: int| j <= k < len ==> is_space(s@[k]),
        decreases j,
    {
        j -= 1;
    }
    proof {
        lemma_trim_front_skip(s@, i as int);
        let m = s@.subrange(i as int, len as int);
        if i < len {
            assert(!is_space(m[0]));
        }
        assert(trim_front(s@) == m);
        assert(forall|k: int| j - i <= k < m.len() ==> is_space(m[k]));
        lemma_trim_back_skip(m, j - i);
        let t = m.subrange(0, j - i);
        if j > i {
            assert(t.last() == s@[j - 1]);
            assert(!is_space(t.last()));
        }
        assert(trim_back(t) == t);
        assert(t =~= s@.subrange(i as int, j as int));
        assert(trimmed(s@) == s@.subrange(i as int, j as int));
    }
    s.substring_char(i, j)
}

/// The maximal whitespace-free words of `s`, in order.
pub open spec fn words(s: Seq<char>) -> Seq<Seq<char>>
    decreases s.len(),
{
    if s.len() == 0 {
        Seq::empty()
    } else {
        let rest = words(s.subrange(1, s.len() as int));
        if is_space(s[0]) {
            rest
        } else if s.len() > 1 && !is_space(s[1]) {
            seq![seq![s[0]] + rest[0]] + rest.subrange(1, rest.len() as int)
        } else {
            seq![seq![s[0]]] + rest
        }
    }
}

/// A maximal run of non-whitespace characters at the head of `s` is its first
/// word, and the remaining words are those of what follows it.
pub proof fn lemma_words_word(s: Seq<char>, k: int)
    requires
        0 < k <= s.len(),
        forall|t: int| 0 <= t < k ==> !is_space(s[t]),
        k == s.len() || is_space(s[k]),
    ensures
        words(s) == seq![s.subrange(0, k)] + words(s.subrange(k, s.len() as int)),
    decreases k,
{
    let tail = s.subrange(1, s.len() as int);
    let rest = words(tail);
    if k == 1 {
        if s.len() > 1 {
            assert(is_space(s[1]));
        }
        assert(words(s) == seq![seq![s[0]]] + rest);
        assert(seq![s[0]] =~= s.subrange(0, 1));
        assert(words(s) =~~= seq![s.subrange(0, 1)] + words(s.subrange(1, s.len() as int)));
    } else {
        assert(!is_space(s[1]));
        assert(forall|t: int| 0 <= t < k - 1 ==> !is_space(tail[t]));
        assert(k - 1 == tail.len() || is_space(tail[k - 1]));
        lemma_words_word(tail, k - 1);
        assert(rest[0] == tail.subrange(0, k - 1));
        assert(rest.subrange(1, rest.len() as int) =~~= words(tail.subrange(k - 1, tail.len() as int)));
        assert(seq![s[0]] + tail.subrange(0, k - 1) =~= s.subrange(0, k));
        assert(tail.subrange(k - 1, tail.len() as int) =~= s.subrange(k, s.len() as int));
        assert(words(s) == seq![seq![s[0]] + rest[0]] + rest.subrange(1, rest.len() as int));
        assert(words(s) =~~= seq![s.subrange(0, k)] + words(s.subrange(k, s.len() as int)));
    }
}

/// The lines of `s`, split on the newline character; splitting the empty text
/// yields one empty line, and every newline starts a further line.
pub open spec fn lines_of(s: Seq<char>) -> Seq<Seq<char>>
    decreases s.len(),
{
    if s.len() == 0 {
        seq![Seq::empty()]
    } else if s[0] == '\n' {
        seq![Seq::empty()] + lines_of(s.subrange(1, s.len() as int))
    } else {
        let rest = lines_of(s.subrange(1, s.len() as int));
        seq![seq![s[0]] + rest[0]] + rest.subrange(1, rest.len() as int)
    }
}

pub proof fn lemma_lines_len(s: Seq<char>)
    ensures
        lines_of(s).len() >= 1,
    decreases s.len(),
{
    if s.len() > 0 {
        lemma_lines_len(s.subrange(1, s.len() as int));
    }
}

/// Splitting off the first line: up to the first newline (or the end), the
/// text is one line, and what follows a newline splits into the further lines.
pub proof fn lemma_lines_head(s: Seq<char>, k: int)
    requires
        0 <= k <= s.len(),
        forall|t: int| 0 <= t < k ==> s[t] != '\n',
        k == s.len() || s[k] == '\n',
    ensures
        k == s.len() ==> lines_of(s) == seq![s],
        k < s.len() ==> lines_of(s) == seq![s.subrange(0, k)] + lines_of(
            s.subrange(k + 1, s.len() as int),
        ),
    decreases s.len(),
{
    if s.len() == 0 {
        assert(lines_of(s) =~~= seq![s]);
    } else if k == 0 {
        assert(s.subrange(0, 0) =~= Seq::<char>::empty());
        assert(lines_of(s) =~~= seq![s.subrange(0, 0)] + lines_of(s.subrange(1, s.len() as int)));
    } else {
        let tail = s.subrange(1, s.len() as int);
        let rest = lines_of(tail);
        lemma_lines_len(tail);
        assert(forall|t: int| 0 <= t < k - 1 ==> tail[t] != '\n');
        assert(k - 1 == tail.len() || tail[k - 1] == '\n');
        lemma_lines_head(tail, k - 1);
        if k == s.len() {
            assert(rest == seq![tail]);
            assert(rest[0] == tail);
            assert(rest.subrange(1, rest.len() as int) =~~= Seq::<Seq<char>>::empty());
            assert(seq![s[0]] + tail =~= s);
            assert(lines_of(s) =~~= seq![s]);
        } else {
            assert(rest[0] == tail.subrange(0, k - 1));
            assert(seq![s[0]] + tail.subrange(0, k - 1) =~= s.subrange(0, k));
            assert(rest.subrange(1, rest.len() as int) =~~= lines_of(
                tail.subrange(k - 1 + 1, tail.len() as int),
            ));
            assert(tail.subrange(k, tail.len() as int) =~= s.subrange(k + 1, s.len() as int));
            assert(lines_of(s) =~~= seq![s.subrange(0, k)] + lines_of(
                s.subrange(k + 1, s.len() as int),
            ));
        }
    }
}


/// Whether `u` is a Unicode scalar value: any code point other than a
/// surrogate, up to 0x10FFFF.
pub open spec fn is_scalar_value(u: u32) -> bool {
    u < 0xd800 || (0xe000 <= u && u <= 0x10ffff)
}

/// Relies on `core::char::from_u32`: `Some` exactly for Unicode scalar
/// values, returning the character with that code point.
#[verifier::external_body]
pub fn char_from_u32(u: u32) -> (r: Option<char>)
    ensures
        r == if is_scalar_value(u) {
            Some(u as char)
        } else {
            None::<char>
        },
{
    core::char::from_u32(u)
}


/// A text of nothing but whitespace trims to the empty text.
pub proof fn lemma_trimmed_all_space(c: Seq<char>)
    requires
        forall|i: int| 0 <= i < c.len() ==> is_space(c[i]),
    ensures
        trimmed(c).len() == 0,
{
    lemma_trim_front_skip(c, c.len() as int);
    assert(c.subrange(c.len() as int, c.len() as int) =~= Seq::<char>::empty());
    assert(trim_front(c).len() == 0);
}

} // verus!
