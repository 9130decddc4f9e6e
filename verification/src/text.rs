use vstd::prelude::*;

verus! {

/// True when `n` occurs in `h` starting at character index `i`.
pub open spec fn match_at(h: Seq<char>, n: Seq<char>, i: int) -> bool {
    &&& 0 <= i
    &&& i + n.len() <= h.len()
    &&& forall|j: int| 0 <= j < n.len() ==> h[i + j] == n[j]
}

/// True when `n` occurs somewhere in `h`.
pub open spec fn contains_seq(h: Seq<char>, n: Seq<char>) -> bool {
    exists|i: int| match_at(h, n, i)
}

/// Strict lexicographic order on character sequences, comparing code points.
pub open spec fn lex_lt(a: Seq<char>, b: Seq<char>) -> bool
    decreases a.len(),
{
    if b.len() == 0 {
        false
    } else if a.len() == 0 {
        true
    } else if a[0] < b[0] {
        true
    } else if a[0] == b[0] {
        lex_lt(a.drop_first(), b.drop_first())
    } else {
        false
    }
}

/// Exact character-for-character equality of two string slices.
pub fn str_eq(a: &str, b: &str) -> (r: bool)
    ensures
        r == (a@ == b@),
{
    let alen = a.unicode_len();
    let blen = b.unicode_len();
    if alen != blen {
        return false;
    }
    let mut i: usize = 0;
    while i < alen
        invariant
            i <= alen,
            alen == a@.len(),
            blen == b@.len(),
            alen == blen,
            forall|j: int| 0 <= j < i ==> a@[j] == b@[j],
        decreases alen - i,
    {
        if a.get_char(i) != b.get_char(i) {
            return false;
        }
        i += 1;
    }
    proof {
        assert(a@ =~= b@);
    }
    true
}

/// Whether `n` occurs in `h` at index `i`, by direct comparison.
fn match_at_exec(h: &str, n: &str, i: usize) -> (r: bool)
    requires
        i + n@.len() <= h@.len(),
    ensures
        r == match_at(h@, n@, i as int),
{
    let nlen = n.unicode_len();
    let hlen = h.unicode_len();
    let mut j: usize = 0;
    while j < nlen
        invariant
            j <= nlen,
            nlen == n@.len(),
            hlen == h@.len(),
            i + nlen <= hlen,
            forall|t: int| 0 <= t < j ==> h@[i + t] == n@[t],
        decreases nlen - j,
    {
        if h.get_char(i + j) != n.get_char(j) {
            return false;
        }
        j += 1;
    }
    true
}

/// Index of the first occurrence of `n` in `h`, if any.
pub fn find_sub(h: &str, n: &str) -> (r: Option<usize>)
    ensures
        match r {
            Some(i) => match_at(h@, n@, i as int) && (forall|k: int|
                0 <= k < i ==> !match_at(h@, n@, k)),
            None => !contains_seq(h@, n@),
        },
{
    let hlen = h.unicode_len();
    let nlen = n.unicode_len();
    if nlen > hlen {
        return None;
    }
    let mut i: usize = 0;
    while i <= hlen - nlen
        invariant
            nlen <= hlen,
            hlen == h@.len(),
            nlen == n@.len(),
            i <= hlen - nlen + 1,
            forall|k: int| 0 <= k < i ==> !match_at(h@, n@, k),
        decreases hlen + 1 - i,
    {
        if match_at_exec(h, n, i) {
            return Some(i);
        }
        i += 1;
    }
    None
}

/// Whether `n` occurs anywhere in `h`.
pub fn str_contains(h: &str, n: &str) -> (r: bool)
    ensures
        r == contains_seq(h@, n@),
{
    match find_sub(h, n) {
        Some(_) => true,
        None => false,
    }
}

/// Whether `s` begins with `p`.
pub fn str_starts_with(s: &str, p: &str) -> (r: bool)
    ensures
        r == match_at(s@, p@, 0),
{
    let slen = s.unicode_len();
    let plen = p.unicode_len();
    if plen > slen {
        return false;
    }
    match_at_exec(s, p, 0)
}

/// Strict lexicographic comparison of two string slices.
pub fn str_lt(a: &str, b: &str) -> (r: bool)
    ensures
        r == lex_lt(a@, b@),
    decreases a@.len(),
{
    let blen = b.unicode_len();
    if blen == 0 {
        return false;
    }
    let alen = a.unicode_len();
    if alen == 0 {
        return true;
    }
    let ca = a.get_char(0);
    let cb = b.get_char(0);
    if ca < cb {
        true
    } else if ca == cb {
        let a2 = a.substring_char(1, alen);
        let b2 = b.substring_char(1, blen);
        proof {
            assert(a2@ =~= a@.drop_first());
            assert(b2@ =~= b@.drop_first());
        }
        str_lt(a2, b2)
    } else {
        false
    }
}

/// Two sequences not ordered either way are equal.
pub proof fn lemma_lex_trichotomy(a: Seq<char>, b: Seq<char>)
    ensures
        !lex_lt(a, b) && !lex_lt(b, a) ==> a =~= b,
    decreases a.len(),
{
    if a.len() == 0 || b.len() == 0 {
    } else if a[0] == b[0] {
        lemma_lex_trichotomy(a.drop_first(), b.drop_first());
        if !lex_lt(a, b) && !lex_lt(b, a) {
            assert(a =~= seq![a[0]] + a.drop_first());
            assert(b =~= seq![b[0]] + b.drop_first());
        }
    } else {
        assert(a[0] < b[0] || b[0] < a[0]);
    }
}

/// Lexicographic order is transitive.
pub proof fn lemma_lex_lt_trans(a: Seq<char>, b: Seq<char>, c: Seq<char>)
    ensures
        lex_lt(a, b) && lex_lt(b, c) ==> lex_lt(a, c),
    decreases a.len(),
{
    if a.len() > 0 && b.len() > 0 && c.len() > 0 {
        lemma_lex_lt_trans(a.drop_first(), b.drop_first(), c.drop_first());
    }
}

pub open spec fn is_digit(c: char) -> bool {
    '0' <= c && c <= '9'
}

/// Value of a sequence of decimal digits, most significant first.
pub open spec fn digits_val(s: Seq<char>) -> int
    decreases s.len(),
{
    if s.len() == 0 {
        0
    } else {
        digits_val(s.drop_last()) * 10 + (s.last() as int - '0' as int)
    }
}

pub open spec fn all_digits(s: Seq<char>) -> bool {
    forall|i: int| 0 <= i < s.len() ==> is_digit(#[trigger] s[i])
}

/// Whether `s` is a decimal integer literal: one or more digits,
/// optionally preceded by a minus sign.
pub open spec fn str_is_int(s: Seq<char>) -> bool {
    if s.len() > 0 && s[0] == '-' {
        s.len() > 1 && all_digits(s.drop_first())
    } else {
        s.len() > 0 && all_digits(s)
    }
}

/// The integer denoted by a decimal integer literal.
pub open spec fn str_int_val(s: Seq<char>) -> int {
    if s.len() > 0 && s[0] == '-' {
        -digits_val(s.drop_first())
    } else {
        digits_val(s)
    }
}

pub proof fn lemma_digits_val_nonneg(s: Seq<char>)
    requires
        all_digits(s),
    ensures
        digits_val(s) >= 0,
    decreases s.len(),
{
    if s.len() > 0 {
        assert(all_digits(s.drop_last()));
        lemma_digits_val_nonneg(s.drop_last());
    }
}

/// Parse a decimal integer, returning `None` when the text is not an
/// integer literal or its value does not fit in an `i64`.
pub fn parse_i64(s: &str) -> (r: Option<i64>)
    ensures
        r == (if str_is_int(s@) && -0x8000_0000_0000_0000 <= str_int_val(s@)
            < 0x8000_0000_0000_0000 {
            Some(str_int_val(s@) as i64)
        } else {
            None::<i64>
        }),
{
    let len = s.unicode_len();
    if len == 0 {
        return None;
    }
    let neg = s.get_char(0) == '-';
    let start: usize = if neg {
        1
    } else {
        0
    };
    if start >= len {
        return None;
    }
    let ghost digits: Seq<char> = if neg {
        s@.drop_first()
    } else {
        s@
    };
    let mut acc: u128 = 0;
    let mut i: usize = start;
    while i < len
        invariant
            start <= i <= len,
            len == s@.len(),
            start == (if neg { 1int } else { 0int }),
            neg ==> s@[0] == '-',
            !neg ==> s@[0] != '-',
            start < len,
            digits == (if neg { s@.drop_first() } else { s@ }),
            all_digits(digits.take(i - start)),
            acc == digits_val(digits.take(i - start)),
            acc <= 0x8000_0000_0000_0000,
        decreases len - i,
    {
        let c = s.get_char(i);
        if c < '0' || c > '9' {
            // not an integer literal at all
            assert(!all_digits(digits)) by {
                assert(digits[i - start] == c);
            }
            return None;
        }
        let d: u128 = (c as u128) - ('0' as u128);
        acc = acc * 10 + d;
        proof {
            assert(digits.take(i + 1 - start).drop_last() =~= digits.take(i - start));
            assert(digits.take(i + 1 - start).last() == c);
        }
        if acc > 0x8000_0000_0000_0000 {
            // overflow: any continuation only grows the magnitude
            proof {
                lemma_digits_overflow(digits, (i + 1 - start) as int);
            }
            return None;
        }
        i += 1;
    }
    proof {
        assert(digits.take(len - start) =~= digits);
    }
    if neg {
        Some((-(acc as i128)) as i64)
    } else {
        if acc > 0x7fff_ffff_ffff_ffff {
            None
        } else {
            Some(acc as i64)
        }
    }
}

/// If a digit prefix already exceeds the `i64` magnitude bound, the whole
/// digit string does too.
proof fn lemma_digits_overflow(s: Seq<char>, i: int)
    requires
        0 < i <= s.len(),
        digits_val(s.take(i)) > 0x8000_0000_0000_0000,
    ensures
        all_digits(s) ==> digits_val(s) > 0x8000_0000_0000_0000,
    decreases s.len() - i,
{
    if all_digits(s) {
        if i < s.len() {
            assert(s.take(i + 1).drop_last() =~= s.take(i));
            assert(is_digit(s.take(i + 1).last())) by {
                assert(s.take(i + 1).last() == s[i]);
            }
            assert(digits_val(s.take(i + 1)) > 0x8000_0000_0000_0000);
            lemma_digits_overflow(s, i + 1);
        } else {
            assert(s.take(i) =~= s);
        }
    }
}

/// The lower-case image of a character sequence, as computed by the
/// standard library's Unicode case conversion. The result depends on the
/// characters alone.
pub uninterp spec fn lower_of(s: Seq<char>) -> Seq<char>;

/// Relies on String::push: appends one character to the string.
#[verifier::external_body]
pub fn string_push(s: &mut String, c: char)
    ensures
        final(s)@ == old(s)@.push(c),
{
    s.push(c);
}

/// Relies on String::pop: removes the last character, if there is one.
#[verifier::external_body]
pub fn string_pop(s: &mut String)
    ensures
        final(s)@ == (if old(s)@.len() > 0 {
            old(s)@.drop_last()
        } else {
            old(s)@
        }),
{
    s.pop();
}

/// Relies on str::to_lowercase: the Unicode lowercase conversion of a
/// string, a function of its characters alone; an empty string stays empty.
#[verifier::external_body]
pub fn lowercase(s: &str) -> (r: String)
    ensures
        r@ == lower_of(s@),
        s@.len() == 0 ==> r@.len() == 0,
{
    s.to_lowercase()
}

} // verus!
