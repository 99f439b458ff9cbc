//! Verified text helpers: decimal formatting and parsing, string equality
//! and substring search over `Seq<char>` models.

use vstd::prelude::*;

verus! {

// ---------------------------------------------------------------------------
// Decimal digits
// ---------------------------------------------------------------------------

/// `c` is an ASCII decimal digit.
pub open spec fn is_digit(c: char) -> bool {
    48 <= c as u32 && c as u32 <= 57
}

/// Numeric value of a digit character.
pub open spec fn digit_val(c: char) -> nat {
    (c as u32 - 48) as nat
}

/// Every character of `s` is a decimal digit.
pub open spec fn all_digits(s: Seq<char>) -> bool {
    forall|i: int| 0 <= i < s.len() ==> is_digit(#[trigger] s[i])
}

/// The value of `s` read as a decimal numeral.
pub open spec fn dec_value(s: Seq<char>) -> nat
    decreases s.len(),
{
    if s.len() == 0 {
        0
    } else {
        dec_value(s.drop_last()) * 10 + digit_val(s.last())
    }
}

/// The digit character for a value in 0..=9.
pub open spec fn digit_char(d: int) -> char {
    if d == 0 {
        '0'
    } else if d == 1 {
        '1'
    } else if d == 2 {
        '2'
    } else if d == 3 {
        '3'
    } else if d == 4 {
        '4'
    } else if d == 5 {
        '5'
    } else if d == 6 {
        '6'
    } else if d == 7 {
        '7'
    } else if d == 8 {
        '8'
    } else {
        '9'
    }
}

/// The decimal numeral of `n`, most significant digit first.
pub open spec fn u64_dec(n: nat) -> Seq<char>
    decreases n,
    when n >= 0
    via u64_dec_decreases
{
    if n < 10 {
        seq![digit_char(n as int)]
    } else {
        u64_dec(n / 10).push(digit_char((n % 10) as int))
    }
}

#[via_fn]
proof fn u64_dec_decreases(n: nat) {
    assert(n >= 10 ==> n / 10 < n) by (nonlinear_arith);
}

/// The decimal numeral of a signed value: a minus sign before the magnitude.
pub open spec fn i64_dec(i: int) -> Seq<char> {
    if i < 0 {
        seq!['-'] + u64_dec((-i) as nat)
    } else {
        u64_dec(i as nat)
    }
}

proof fn lemma_digit_char_val(d: int)
    requires
        0 <= d < 10,
    ensures
        is_digit(digit_char(d)),
        digit_val(digit_char(d)) == d,
{
}

/// A numeral rendered by `u64_dec` is non-empty, all digits, and reads back
/// to the value it was made from.
pub proof fn lemma_u64_dec(n: nat)
    ensures
        u64_dec(n).len() >= 1,
        all_digits(u64_dec(n)),
        dec_value(u64_dec(n)) == n,
    decreases n,
{
    if n < 10 {
        lemma_digit_char_val(n as int);
        let s = u64_dec(n);
        assert(s =~= seq![digit_char(n as int)]);
        assert(s.drop_last() =~= Seq::<char>::empty());
        assert(s.last() == digit_char(n as int));
        assert(dec_value(s) == dec_value(Seq::<char>::empty()) * 10 + digit_val(digit_char(n as int)));
    } else {
        lemma_u64_dec(n / 10);
        lemma_digit_char_val((n % 10) as int);
        let s = u64_dec(n / 10);
        let c = digit_char((n % 10) as int);
        assert(s.push(c).drop_last() =~= s);
        assert(s.push(c).last() == c);
        assert(dec_value(s.push(c)) == (n / 10) * 10 + n % 10);
        assert((n / 10) * 10 + n % 10 == n) by (nonlinear_arith);
    }
}

/// A prefix of a numeral never reads to a larger value than the whole.
proof fn lemma_dec_value_prefix(s: Seq<char>, i: int)
    requires
        0 <= i <= s.len(),
    ensures
        dec_value(s.subrange(0, i)) <= dec_value(s),
    decreases s.len() - i,
{
    if i < s.len() {
        lemma_dec_value_prefix(s, i + 1);
        let t = s.subrange(0, i + 1);
        assert(t.drop_last() =~= s.subrange(0, i));
        assert(dec_value(t) == dec_value(s.subrange(0, i)) * 10 + digit_val(t.last()));
        assert(dec_value(s.subrange(0, i)) * 10 >= dec_value(s.subrange(0, i))) by (nonlinear_arith);
    } else {
        assert(s.subrange(0, i) =~= s);
    }
}

fn digit_str(d: u64) -> (r: &'static str)
    requires
        d < 10,
    ensures
        r@ == seq![digit_char(d as int)],
{
    if d == 0 {
        proof { reveal_strlit("0"); assert("0"@ =~= seq![digit_char(0)]); }
        "0"
    } else if d == 1 {
        proof { reveal_strlit("1"); assert("1"@ =~= seq![digit_char(1)]); }
        "1"
    } else if d == 2 {
        proof { reveal_strlit("2"); assert("2"@ =~= seq![digit_char(2)]); }
        "2"
    } else if d == 3 {
        proof { reveal_strlit("3"); assert("3"@ =~= seq![digit_char(3)]); }
        "3"
    } else if d == 4 {
        proof { reveal_strlit("4"); assert("4"@ =~= seq![digit_char(4)]); }
        "4"
    } else if d == 5 {
        proof { reveal_strlit("5"); assert("5"@ =~= seq![digit_char(5)]); }
        "5"
    } else if d == 6 {
        proof { reveal_strlit("6"); assert("6"@ =~= seq![digit_char(6)]); }
        "6"
    } else if d == 7 {
        proof { reveal_strlit("7"); assert("7"@ =~= seq![digit_char(7)]); }
        "7"
    } else if d == 8 {
        proof { reveal_strlit("8"); assert("8"@ =~= seq![digit_char(8)]); }
        "8"
    } else {
        proof { reveal_strlit("9"); assert("9"@ =~= seq![digit_char(9)]); }
        "9"
    }
}

/// Render `n` in decimal.
pub fn u64_to_string(n: u64) -> (s: String)
    ensures
        s@ == u64_dec(n as nat),
    decreases n,
{
    if n < 10 {
        String::from_str(digit_str(n))
    } else {
        let mut s = u64_to_string(n / 10);
        s.append(digit_str(n % 10));
        proof {
            assert(u64_dec((n / 10) as nat) + seq![digit_char((n % 10) as int)]
                =~= u64_dec(n as nat));
        }
        s
    }
}

/// Render a signed value in decimal.
pub fn i64_to_string(n: i64) -> (s: String)
    ensures
        s@ == i64_dec(n as int),
{
    if n >= 0 {
        u64_to_string(n as u64)
    } else {
        let mag: u64 = if n == i64::MIN {
            9223372036854775808u64
        } else {
            (-n) as u64
        };
        assert(mag as nat == (-(n as int)) as nat);
        let mut s = String::from_str("-");
        let digits = u64_to_string(mag);
        s.append(digits.as_str());
        proof {
            reveal_strlit("-");
            assert("-"@ + u64_dec(mag as nat) =~= i64_dec(n as int));
        }
        s
    }
}

/// Parse a decimal numeral. Returns the value exactly when the string is a
/// non-empty run of digits whose value fits in a `u64`.
pub fn parse_u64(s: &str) -> (r: Option<u64>)
    ensures
        match r {
            Some(v) => s@.len() > 0 && all_digits(s@) && v as nat == dec_value(s@),
            None => s@.len() == 0 || !all_digits(s@) || dec_value(s@) > u64::MAX,
        },
{
    let len = s.unicode_len();
    if len == 0 {
        return None;
    }
    let mut acc: u64 = 0;
    let mut i: usize = 0;
    while i < len
        invariant
            0 <= i <= len,
            len == s@.len(),
            all_digits(s@.subrange(0, i as int)),
            acc as nat == dec_value(s@.subrange(0, i as int)),
        decreases len - i,
    {
        let c = s.get_char(i);
        let u = c as u32;
        if u < 48 || u > 57 {
            assert(!is_digit(s@[i as int]));
            return None;
        }
        let d = (u - 48) as u64;
        assert(d == digit_val(s@[i as int]));
        let ghost pre = s@.subrange(0, i as int);
        let ghost ext = s@.subrange(0, i as int + 1);
        proof {
            assert(ext.drop_last() =~= pre);
            assert(ext.last() == s@[i as int]);
        }
        if acc > (u64::MAX - d) / 10 {
            proof {
                assert(acc as nat * 10 + d as nat > u64::MAX) by (nonlinear_arith)
                    requires
                        acc > (u64::MAX - d) / 10,
                        d <= 9,
                ;
                assert(dec_value(ext) > u64::MAX);
                lemma_dec_value_prefix(s@, i as int + 1);
                assert(s@.subrange(0, s@.len() as int) =~= s@);
                lemma_dec_value_prefix(s@, s@.len() as int);
                assert(dec_value(s@) >= dec_value(ext));
            }
            return None;
        }
        assert(acc as nat * 10 + d as nat <= u64::MAX) by (nonlinear_arith)
            requires
                acc <= (u64::MAX - d) / 10,
                d <= 9,
        ;
        acc = acc * 10 + d;
        i = i + 1;
    }
    proof {
        assert(s@.subrange(0, len as int) =~= s@);
    }
    Some(acc)
}

// ---------------------------------------------------------------------------
// String comparison and search
// ---------------------------------------------------------------------------

/// Exact equality of two string slices, decided character by character.
pub fn str_eq(a: &str, b: &str) -> (r: bool)
    ensures
        r == (a@ == b@),
{
    let alen = a.unicode_len();
    let blen = b.unicode_len();
    if alen != blen {
        return false;
    }
    let mut i: usize = 0;
    while i < alen
        invariant
            0 <= i <= alen,
            alen == a@.len(),
            alen == b@.len(),
            forall|j: int| 0 <= j < i ==> a@[j] == b@[j],
        decreases alen - i,
    {
        if a.get_char(i) != b.get_char(i) {
            return false;
        }
        i = i + 1;
    }
    proof {
        assert(a@ =~= b@);
    }
    true
}

/// `n` occurs in `h` starting at position `i`.
pub open spec fn contains_at(h: Seq<char>, n: Seq<char>, i: int) -> bool {
    0 <= i && i + n.len() <= h.len() && (forall|j: int| 0 <= j < n.len() ==> h[i + j] == n[j])
}

/// `n` occurs somewhere in `h`.
pub open spec fn spec_contains(h: Seq<char>, n: Seq<char>) -> bool {
    exists|i: int| contains_at(h, n, i)
}

/// Substring search.
pub fn str_contains(h: &str, n: &str) -> (r: bool)
    ensures
        r == spec_contains(h@, n@),
{
    let hlen = h.unicode_len();
    let nlen = n.unicode_len();
    if nlen > hlen {
        return false;
    }
    let mut i: usize = 0;
    loop
        invariant
            0 <= i <= hlen - nlen + 1,
            nlen <= hlen,
            hlen == h@.len(),
            nlen == n@.len(),
            forall|k: int| 0 <= k < i ==> !contains_at(h@, n@, k),
        decreases hlen - nlen + 1 - i,
    {
        if i > hlen - nlen {
            proof {
                assert(forall|k: int| contains_at(h@, n@, k) ==> 0 <= k <= hlen - nlen);
            }
            return false;
        }
        let mut j: usize = 0;
        let mut matched = true;
        while j < nlen
            invariant
                0 <= j <= nlen,
                i <= hlen - nlen,
                hlen == h@.len(),
                nlen == n@.len(),
                matched ==> forall|q: int| 0 <= q < j ==> h@[i + q] == n@[q],
                !matched ==> !contains_at(h@, n@, i as int),
            decreases nlen - j,
        {
            if matched && h.get_char(i + j) != n.get_char(j) {
                matched = false;
            }
            j = j + 1;
        }
        if matched {
            assert(contains_at(h@, n@, i as int));
            return true;
        }
        i = i + 1;
    }
}

/// ASCII case folding on the scalar value of a character.
pub open spec fn lower_u(c: char) -> u32 {
    if 65 <= c as u32 && c as u32 <= 90 {
        (c as u32 + 32) as u32
    } else {
        c as u32
    }
}

/// `n` occurs in `h` at `i`, comparing characters ASCII-case-insensitively.
pub open spec fn contains_lower_at(h: Seq<char>, n: Seq<char>, i: int) -> bool {
    0 <= i && i + n.len() <= h.len()
        && (forall|j: int| 0 <= j < n.len() ==> lower_u(h[i + j]) == lower_u(n[j]))
}

/// `n` occurs somewhere in `h`, ASCII-case-insensitively.
pub open spec fn spec_contains_lower(h: Seq<char>, n: Seq<char>) -> bool {
    exists|i: int| contains_lower_at(h, n, i)
}

fn char_lower(c: char) -> (r: u32)
    ensures
        r == lower_u(c),
{
    let u = c as u32;
    if 65 <= u && u <= 90 {
        u + 32
    } else {
        u
    }
}

/// Substring search that ignores ASCII case.
pub fn str_contains_lower(h: &str, n: &str) -> (r: bool)
    ensures
        r == spec_contains_lower(h@, n@),
{
    let hlen = h.unicode_len();
    let nlen = n.unicode_len();
    if nlen > hlen {
        return false;
    }
    let mut i: usize = 0;
    loop
        invariant
            0 <= i <= hlen - nlen + 1,
            nlen <= hlen,
            hlen == h@.len(),
            nlen == n@.len(),
            forall|k: int| 0 <= k < i ==> !contains_lower_at(h@, n@, k),
        decreases hlen - nlen + 1 - i,
    {
        if i > hlen - nlen {
            proof {
                assert(forall|k: int| contains_lower_at(h@, n@, k) ==> 0 <= k <= hlen - nlen);
            }
            return false;
        }
        let mut j: usize = 0;
        let mut matched = true;
        while j < nlen
            invariant
                0 <= j <= nlen,
                i <= hlen - nlen,
                hlen == h@.len(),
                nlen == n@.len(),
                matched ==> forall|q: int| 0 <= q < j ==> lower_u(h@[i + q]) == lower_u(n@[q]),
                !matched ==> !contains_lower_at(h@, n@, i as int),
            decreases nlen - j,
        {
            if matched && char_lower(h.get_char(i + j)) != char_lower(n.get_char(j)) {
                matched = false;
            }
            j = j + 1;
        }
        if matched {
            assert(contains_lower_at(h@, n@, i as int));
            return true;
        }
        i = i + 1;
    }
}

// ---------------------------------------------------------------------------
// Lexicographic order on character sequences
// ---------------------------------------------------------------------------

/// `a` is at or before `b` in lexicographic order by scalar value. This is
/// the order a binary collation of UTF-8 text induces on the characters.
pub open spec fn spec_str_le(a: Seq<char>, b: Seq<char>) -> bool
    decreases a.len(),
{
    if a.len() == 0 {
        true
    } else if b.len() == 0 {
        false
    } else if (a[0] as u32) < (b[0] as u32) {
        true
    } else if (a[0] as u32) > (b[0] as u32) {
        false
    } else {
        spec_str_le(a.drop_first(), b.drop_first())
    }
}

/// Lexicographic order is total.
pub proof fn lemma_str_le_total(a: Seq<char>, b: Seq<char>)
    ensures
        spec_str_le(a, b) || spec_str_le(b, a),
    decreases a.len(),
{
    if a.len() > 0 && b.len() > 0 && a[0] as u32 == b[0] as u32 {
        lemma_str_le_total(a.drop_first(), b.drop_first());
    }
}

/// Lexicographic order is transitive.
pub proof fn lemma_str_le_trans(a: Seq<char>, b: Seq<char>, c: Seq<char>)
    requires
        spec_str_le(a, b),
        spec_str_le(b, c),
    ensures
        spec_str_le(a, c),
    decreases a.len(),
{
    if a.len() > 0 && b.len() > 0 && c.len() > 0 {
        if a[0] as u32 == b[0] as u32 && b[0] as u32 == c[0] as u32 {
            lemma_str_le_trans(a.drop_first(), b.drop_first(), c.drop_first());
        }
    }
}

/// Lexicographic comparison of two string slices.
pub fn str_le(a: &str, b: &str) -> (r: bool)
    ensures
        r == spec_str_le(a@, b@),
{
    let alen = a.unicode_len();
    let blen = b.unicode_len();
    proof {
        assert(a@.subrange(0, alen as int) =~= a@);
        assert(b@.subrange(0, blen as int) =~= b@);
    }
    let mut i: usize = 0;
    loop
        invariant
            0 <= i <= alen,
            0 <= i <= blen,
            alen == a@.len(),
            blen == b@.len(),
            spec_str_le(a@, b@) == spec_str_le(
                a@.subrange(i as int, alen as int),
                b@.subrange(i as int, blen as int),
            ),
        decreases alen - i,
    {
        if i == alen {
            return true;
        }
        if i == blen {
            return false;
        }
        let ca = a.get_char(i) as u32;
        let cb = b.get_char(i) as u32;
        let ghost sa = a@.subrange(i as int, alen as int);
        let ghost sb = b@.subrange(i as int, blen as int);
        proof {
            assert(sa[0] == a@[i as int]);
            assert(sb[0] == b@[i as int]);
        }
        if ca < cb {
            return true;
        }
        if ca > cb {
            return false;
        }
        proof {
            assert(sa.drop_first() =~= a@.subrange(i as int + 1, alen as int));
            assert(sb.drop_first() =~= b@.subrange(i as int + 1, blen as int));
        }
        i = i + 1;
    }
}

/// `p` is a prefix of `s`.
pub open spec fn spec_starts_with(s: Seq<char>, p: Seq<char>) -> bool {
    s.len() >= p.len() && s.subrange(0, p.len() as int) == p
}

/// Prefix test.
pub fn str_starts_with(s: &str, p: &str) -> (r: bool)
    ensures
        r == spec_starts_with(s@, p@),
{
    let slen = s.unicode_len();
    let plen = p.unicode_len();
    if plen > slen {
        return false;
    }
    let mut i: usize = 0;
    while i < plen
        invariant
            0 <= i <= plen,
            plen <= slen,
            slen == s@.len(),
            plen == p@.len(),
            forall|j: int| 0 <= j < i ==> s@[j] == p@[j],
        decreases plen - i,
    {
        if s.get_char(i) != p.get_char(i) {
            assert(s@.subrange(0, p@.len() as int)[i as int] != p@[i as int]);
            return false;
        }
        i = i + 1;
    }
    proof {
        assert(s@.subrange(0, p@.len() as int) =~= p@);
    }
    true
}

/// The end of the run of digit characters that starts at `i`.
pub open spec fn digits_end(s: Seq<char>, i: int) -> int
    decreases s.len() - i,
{
    if i < 0 || i >= s.len() {
        if i < 0 {
            0
        } else {
            s.len() as int
        }
    } else if is_digit(s[i]) {
        digits_end(s, i + 1)
    } else {
        i
    }
}

/// What the end of a digit run means: it lies at or after the start, at or
/// before the end of the text, everything in between is a digit, and the
/// character at the end (if any) is not.
pub proof fn lemma_digits_end(s: Seq<char>, i: int)
    requires
        0 <= i <= s.len(),
    ensures
        i <= digits_end(s, i) <= s.len(),
        forall|k: int| i <= k < digits_end(s, i) ==> is_digit(#[trigger] s[k]),
        digits_end(s, i) < s.len() ==> !is_digit(s[digits_end(s, i)]),
    decreases s.len() - i,
{
    if i < s.len() && is_digit(s[i]) {
        lemma_digits_end(s, i + 1);
    }
}

/// Scan to the end of the digit run starting at `i`.
pub fn digits_end_exec(s: &str, i: usize) -> (j: usize)
    requires
        i <= s@.len(),
    ensures
        j == digits_end(s@, i as int),
        i <= j <= s@.len(),
{
    let len = s.unicode_len();
    let mut j = i;
    while j < len
        invariant
            i <= j <= len,
            len == s@.len(),
            digits_end(s@, i as int) == digits_end(s@, j as int),
        decreases len - j,
    {
        let c = s.get_char(j);
        let u = c as u32;
        if u < 48 || u > 57 {
            proof {
                assert(!is_digit(s@[j as int]));
            }
            return j;
        }
        proof {
            assert(is_digit(s@[j as int]));
        }
        j = j + 1;
    }
    j
}

} // verus!