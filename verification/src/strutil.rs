use vstd::prelude::*;

verus! {

/// Compares two string slices by content.
pub fn str_eq(a: &str, b: &str) -> (r: bool)
    ensures
        r == (a@ == b@),
{
    let a_len = a.unicode_len();
    let b_len = b.unicode_len();
    if a_len != b_len {
        assert(a@ != b@) by {
            assert(a@.len() != b@.len());
        }
        return false;
    }
    let mut i: usize = 0;
    while i < a_len
        invariant
            a_len == a@.len(),
            b_len == b@.len(),
            a_len == b_len,
            i <= a_len,
            forall|j: int| 0 <= j < i ==> a@[j] == b@[j],
        decreases a_len - i,
    {
        if a.get_char(i) != b.get_char(i) {
            return false;
        }
        i += 1;
    }
    proof {
        assert(a@ =~= b@);
    }
    true
}

/// Whether the sequence of group names holds `s`, by content.
pub open spec fn spec_contains_str(v: Seq<String>, s: Seq<char>) -> bool {
    exists|i: int| 0 <= i < v.len() && v[i]@ == s
}

/// Does the vector of strings hold `s`, comparing by content?
pub fn contains_string(v: &Vec<String>, s: &str) -> (r: bool)
    ensures
        r == spec_contains_str(v@, s@),
{
    let mut i: usize = 0;
    while i < v.len()
        invariant
            i <= v@.len(),
            forall|j: int| 0 <= j < i ==> v@[j]@ != s@,
        decreases v@.len() - i,
    {
        if str_eq(v[i].as_str(), s) {
            assert(v@[i as int]@ == s@);
            return true;
        }
        i += 1;
    }
    false
}

/// Collects the characters of a string slice into a vector.
pub fn chars_of(s: &str) -> (r: Vec<char>)
    ensures
        r@ == s@,
{
    let len = s.unicode_len();
    let mut r: Vec<char> = Vec::new();
    let mut i: usize = 0;
    while i < len
        invariant
            len == s@.len(),
            i <= len,
            r@ =~= s@.subrange(0, i as int),
        decreases len - i,
    {
        r.push(s.get_char(i));
        assert(r@ =~= s@.subrange(0, i + 1 as int));
        i += 1;
    }
    proof {
        assert(r@ =~= s@);
    }
    r
}

/// ASCII lower-casing of one character; anything outside 'A'..'Z' is unchanged.
pub open spec fn lower_char(c: char) -> char {
    if 'A' <= c && c <= 'Z' {
        (((c as u8) + 32) as u8) as char
    } else {
        c
    }
}

/// ASCII lower-casing of a character sequence.
pub open spec fn lower(s: Seq<char>) -> Seq<char> {
    s.map_values(|c: char| lower_char(c))
}

/// Lower-cases the ASCII letters of a character vector.
pub fn to_lower_chars(s: &Vec<char>) -> (r: Vec<char>)
    ensures
        r@ == lower(s@),
{
    let mut r: Vec<char> = Vec::new();
    let mut i: usize = 0;
    while i < s.len()
        invariant
            i <= s@.len(),
            r@ =~= lower(s@).subrange(0, i as int),
        decreases s@.len() - i,
    {
        let c = s[i];
        if 'A' <= c && c <= 'Z' {
            r.push(((c as u8) + 32) as char);
        } else {
            r.push(c);
        }
        assert(r@ =~= lower(s@).subrange(0, i + 1 as int));
        i += 1;
    }
    proof {
        assert(r@ =~= lower(s@));
    }
    r
}

/// `needle` occurs as a contiguous run inside `hay`.
pub open spec fn spec_contains_sub(hay: Seq<char>, needle: Seq<char>) -> bool {
    exists|i: int|
        0 <= i && i + needle.len() <= hay.len() && #[trigger] hay.subrange(i, i + needle.len())
            == needle
}

/// Does `needle` match `hay` starting at position `at`?
fn matches_at(hay: &Vec<char>, needle: &Vec<char>, at: usize) -> (r: bool)
    requires
        at + needle@.len() <= hay@.len(),
    ensures
        r == (hay@.subrange(at as int, at + needle@.len()) == needle@),
{
    let hlen = hay.len();
    let mut j: usize = 0;
    while j < needle.len()
        invariant
            hlen == hay@.len(),
            at + needle@.len() <= hay@.len(),
            j <= needle@.len(),
            forall|k: int| 0 <= k < j ==> hay@[at + k] == needle@[k],
        decreases needle@.len() - j,
    {
        assert(at + j < hlen);
        if hay[at + j] != needle[j] {
            assert(hay@.subrange(at as int, at + needle@.len())[j as int] != needle@[j as int]);
            return false;
        }
        j += 1;
    }
    proof {
        assert(hay@.subrange(at as int, at + needle@.len()) =~= needle@);
    }
    true
}

/// Substring search: does `needle` occur anywhere in `hay`?
pub fn contains_sub(hay: &Vec<char>, needle: &Vec<char>) -> (r: bool)
    ensures
        r == spec_contains_sub(hay@, needle@),
{
    if needle.len() > hay.len() {
        return false;
    }
    if needle.len() == 0 {
        assert(hay@.subrange(0, 0 + needle@.len() as int) =~= needle@);
        return true;
    }
    let hlen = hay.len();
    let last = hay.len() - needle.len();
    let mut i: usize = 0;
    while i <= last
        invariant
            hlen == hay@.len(),
            1 <= needle@.len() <= hay@.len(),
            last == hay@.len() - needle@.len(),
            i <= last + 1,
            forall|k: int|
                0 <= k < i ==> #[trigger] hay@.subrange(k, k + needle@.len()) != needle@,
        decreases last + 1 - i,
    {
        if matches_at(hay, needle, i) {
            assert(hay@.subrange(i as int, i + needle@.len()) == needle@);
            return true;
        }
        assert(i < hlen);
        i += 1;
    }
    false
}

/// Lexicographic order on character sequences by code point, non-strict.
pub open spec fn lex_le(a: Seq<char>, b: Seq<char>) -> bool
    decreases a.len(),
{
    if a.len() == 0 {
        true
    } else if b.len() == 0 {
        false
    } else if (a[0] as u32) < (b[0] as u32) {
        true
    } else if (a[0] as u32) > (b[0] as u32) {
        false
    } else {
        lex_le(a.skip(1), b.skip(1))
    }
}

/// The lexicographic order relates every pair, one way or the other.
pub proof fn lemma_lex_le_total(a: Seq<char>, b: Seq<char>)
    ensures
        lex_le(a, b) || lex_le(b, a),
    decreases a.len(),
{
    if a.len() == 0 || b.len() == 0 {
    } else if (a[0] as u32) == (b[0] as u32) {
        lemma_lex_le_total(a.skip(1), b.skip(1));
    }
}

/// The lexicographic order is transitive.
pub proof fn lemma_lex_le_trans(a: Seq<char>, b: Seq<char>, c: Seq<char>)
    requires
        lex_le(a, b),
        lex_le(b, c),
    ensures
        lex_le(a, c),
    decreases a.len(),
{
    if a.len() == 0 {
    } else if b.len() == 0 {
    } else if c.len() == 0 {
    } else {
        if (a[0] as u32) == (b[0] as u32) && (b[0] as u32) == (c[0] as u32) {
            lemma_lex_le_trans(a.skip(1), b.skip(1), c.skip(1));
        }
    }
}

/// Two sequences below each other in the lexicographic order are equal.
pub proof fn lemma_lex_le_antisym(a: Seq<char>, b: Seq<char>)
    requires
        lex_le(a, b),
        lex_le(b, a),
    ensures
        a == b,
    decreases a.len(),
{
    if a.len() == 0 {
        assert(b.len() == 0);
        assert(a =~= b);
    } else {
        assert(b.len() != 0);
        assert((a[0] as u32) == (b[0] as u32));
        vstd::utf8::char_u32_cast(a[0], a[0] as u32);
        vstd::utf8::char_u32_cast(b[0], b[0] as u32);
        assert(a[0] == b[0]);
        lemma_lex_le_antisym(a.skip(1), b.skip(1));
        assert(a =~= seq![a[0]] + a.skip(1));
        assert(b =~= seq![b[0]] + b.skip(1));
        assert(a =~= b);
    }
}

/// Compares two strings in code-point order, non-strict.
pub fn str_le(a: &str, b: &str) -> (r: bool)
    ensures
        r == lex_le(a@, b@),
{
    let a_len = a.unicode_len();
    let b_len = b.unicode_len();
    let mut i: usize = 0;
    proof {
        assert(a@.skip(0) =~= a@);
        assert(b@.skip(0) =~= b@);
    }
    loop
        invariant
            a_len == a@.len(),
            b_len == b@.len(),
            i <= a_len,
            i <= b_len,
            forall|j: int| 0 <= j < i ==> a@[j] == b@[j],
            lex_le(a@, b@) == lex_le(a@.skip(i as int), b@.skip(i as int)),
        decreases a_len - i,
    {
        if i >= a_len {
            assert(a@.skip(i as int).len() == 0);
            return true;
        }
        if i >= b_len {
            assert(b@.skip(i as int).len() == 0);
            assert(a@.skip(i as int).len() > 0);
            return false;
        }
        let ca = a.get_char(i);
        let cb = b.get_char(i);
        assert(a@.skip(i as int)[0] == a@[i as int]);
        assert(b@.skip(i as int)[0] == b@[i as int]);
        if (ca as u32) < (cb as u32) {
            return true;
        }
        if (ca as u32) > (cb as u32) {
            return false;
        }
        proof {
            assert(a@.skip(i as int).skip(1) =~= a@.skip(i + 1 as int));
            assert(b@.skip(i as int).skip(1) =~= b@.skip(i + 1 as int));
        }
        i += 1;
    }
}


/// Relies on String::from_iter over chars: collects exactly the given
/// characters into a string.
#[verifier::external_body]
pub fn chars_to_string(v: &Vec<char>) -> (r: String)
    ensures
        r@ == v@,
{
    v.iter().collect()
}

/// The decimal digit character for one value below ten.
pub open spec fn digit_char(d: int) -> char {
    (('0' as u8) + d as u8) as char
}

/// The decimal digits of a natural number, most significant first.
pub open spec fn dec_digits(n: int) -> Seq<char>
    decreases n,
{
    if n < 10 {
        seq![digit_char(if n < 0 { 0 } else { n })]
    } else {
        dec_digits(n / 10) + seq![digit_char(n % 10)]
    }
}

/// The decimal rendering of a signed number: a minus sign for negatives,
/// then the digits of the magnitude.
pub open spec fn dec_i64(n: int) -> Seq<char> {
    if n < 0 {
        seq!['-'] + dec_digits(-n)
    } else {
        dec_digits(n)
    }
}

/// Renders an unsigned number in decimal.
pub fn fmt_u64(n: u64) -> (r: Vec<char>)
    ensures
        r@ == dec_digits(n as int),
{
    let mut rev: Vec<char> = Vec::new();
    let mut m = n;
    while m >= 10
        invariant
            dec_digits(n as int) == dec_digits(m as int) + rev@.reverse(),
        decreases m,
    {
        let d = (m % 10) as u8;
        let c = (('0' as u8) + d) as char;
        let ghost rev_prev = rev@;
        rev.push(c);
        proof {
            assert(c == digit_char(m as int % 10));
            assert(rev@.reverse() =~= seq![c] + rev_prev.reverse());
            assert(dec_digits(m as int) == dec_digits(m as int / 10) + seq![digit_char(
                m as int % 10,
            )]);
            assert(dec_digits(n as int) =~= dec_digits(m as int / 10) + rev@.reverse());
        }
        m = m / 10;
    }
    let d = (m % 10) as u8;
    let c = (('0' as u8) + d) as char;
    let ghost rev_prev = rev@;
    rev.push(c);
    proof {
        assert(c == digit_char(m as int));
        assert(dec_digits(m as int) =~= seq![c]);
        assert(rev@.reverse() =~= seq![c] + rev_prev.reverse());
        assert(dec_digits(n as int) =~= rev@.reverse());
    }
    let mut out: Vec<char> = Vec::new();
    let mut i: usize = rev.len();
    while i > 0
        invariant
            i <= rev@.len(),
            dec_digits(n as int) == rev@.reverse(),
            out@ =~= rev@.reverse().subrange(0, rev@.len() - i),
        decreases i,
    {
        i -= 1;
        out.push(rev[i]);
        proof {
            assert(rev@.reverse()[rev@.len() - i - 1] == rev@[i as int]);
            assert(out@ =~= rev@.reverse().subrange(0, rev@.len() - i));
        }
    }
    proof {
        assert(out@ =~= rev@.reverse());
    }
    out
}

/// Renders a signed number in decimal.
pub fn fmt_i64(n: i64) -> (r: Vec<char>)
    ensures
        r@ == dec_i64(n as int),
{
    if n < 0 {
        let mag: u64 = ((-(n + 1)) as u64) + 1;
        let mut out: Vec<char> = Vec::new();
        out.push('-');
        let mut digits = fmt_u64(mag);
        out.append(&mut digits);
        proof {
            assert(mag as int == -(n as int));
            assert(out@ =~= dec_i64(n as int));
        }
        out
    } else {
        let r = fmt_u64(n as u64);
        r
    }
}


/// Formatting then valuing a nonnegative number gives it back.
pub proof fn lemma_digits_value_of_dec(n: int)
    requires
        n >= 0,
    ensures
        crate::stats::digits_value(dec_digits(n)) == n,
    decreases n,
{
    if n < 10 {
        let d = dec_digits(n);
        assert(d =~= seq![digit_char(n)]);
        assert(d.drop_last() =~= Seq::<char>::empty());
        assert(crate::stats::digits_value(d.drop_last()) == 0);
        assert(d.last() == digit_char(n));
        assert(crate::stats::digits_value(d) == digit_char(n) as int - '0' as int);
        assert(digit_char(n) as int == '0' as int + n);
    } else {
        lemma_digits_value_of_dec(n / 10);
        let d = dec_digits(n);
        assert(d == dec_digits(n / 10) + seq![digit_char(n % 10)]);
        assert(d.drop_last() =~= dec_digits(n / 10));
        assert(d.last() == digit_char(n % 10));
        assert(digit_char(n % 10) as int == '0' as int + n % 10);
        assert(crate::stats::digits_value(d) == n / 10 * 10 + n % 10);
    }
}

/// The decimal rendering of a nonnegative number starts with a digit.
pub proof fn lemma_dec_digits_first(n: int)
    requires
        n >= 0,
    ensures
        dec_digits(n).len() >= 1,
        '0' <= dec_digits(n)[0] && dec_digits(n)[0] <= '9',
    decreases n,
{
    if n < 10 {
        assert(dec_digits(n)[0] == digit_char(n));
        assert(digit_char(n) as int == '0' as int + n);
    } else {
        lemma_dec_digits_first(n / 10);
        assert(dec_digits(n)[0] == dec_digits(n / 10)[0]);
    }
}

/// Two numbers with the same decimal rendering are equal.
pub proof fn lemma_dec_i64_injective(a: int, b: int)
    requires
        dec_i64(a) == dec_i64(b),
    ensures
        a == b,
{
    if a >= 0 && b >= 0 {
        lemma_digits_value_of_dec(a);
        lemma_digits_value_of_dec(b);
    } else if a < 0 && b < 0 {
        let da = seq!['-'] + dec_digits(-a);
        let db = seq!['-'] + dec_digits(-b);
        assert(da.skip(1) =~= dec_digits(-a));
        assert(db.skip(1) =~= dec_digits(-b));
        assert(dec_digits(-a) == dec_digits(-b));
        lemma_digits_value_of_dec(-a);
        lemma_digits_value_of_dec(-b);
    } else if a < 0 && b >= 0 {
        lemma_dec_digits_first(b);
        assert(dec_i64(a)[0] == '-');
        assert(dec_i64(b)[0] == dec_digits(b)[0]);
        assert(false);
    } else {
        lemma_dec_digits_first(a);
        assert(dec_i64(b)[0] == '-');
        assert(dec_i64(a)[0] == dec_digits(a)[0]);
        assert(false);
    }
}


/// Ten to the `k`-th power.
pub open spec fn pow10(k: int) -> int
    decreases k,
{
    if k <= 0 {
        1
    } else {
        10 * pow10(k - 1)
    }
}

/// Ten to any power is positive.
pub proof fn lemma_pow10_pos(k: int)
    ensures
        pow10(k) >= 1,
    decreases (if k <= 0 {
        0
    } else {
        k
    }),
{
    if k > 0 {
        lemma_pow10_pos(k - 1);
    }
}

/// The value of a run of decimal digit characters, most significant first.
pub open spec fn digits_val(s: Seq<char>) -> int
    decreases s.len(),
{
    if s.len() == 0 {
        0
    } else {
        digits_val(s.drop_last()) * 10 + (s.last() as int - '0' as int)
    }
}

/// Every character of a natural number's decimal digits is a digit.
pub proof fn lemma_dec_digits_all_digits(n: int)
    requires
        n >= 0,
    ensures
        forall|k: int|
            0 <= k < dec_digits(n).len() ==> ('0' <= #[trigger] dec_digits(n)[k] && dec_digits(
                n,
            )[k] <= '9'),
    decreases n,
{
    if n < 10 {
        assert(dec_digits(n)[0] == digit_char(n));
        assert(digit_char(n) as int == '0' as int + n);
    } else {
        lemma_dec_digits_all_digits(n / 10);
        assert(dec_digits(n) == dec_digits(n / 10) + seq![digit_char(n % 10)]);
        assert(digit_char(n % 10) as int == '0' as int + n % 10);
        assert forall|k: int|
            0 <= k < dec_digits(n).len() implies ('0' <= #[trigger] dec_digits(n)[k]
            && dec_digits(n)[k] <= '9') by {
            if k < dec_digits(n / 10).len() {
                assert(dec_digits(n)[k] == dec_digits(n / 10)[k]);
            } else {
                assert(dec_digits(n)[k] == digit_char(n % 10));
            }
        }
    }
}

/// The digits of a natural number evaluate back to it.
pub proof fn lemma_digits_val_of_dec_digits(n: int)
    requires
        n >= 0,
    ensures
        digits_val(dec_digits(n)) == n,
    decreases n,
{
    if n < 10 {
        assert(dec_digits(n) == seq![digit_char(n)]);
        assert(dec_digits(n).drop_last() =~= Seq::<char>::empty());
        assert(dec_digits(n).last() == digit_char(n));
        assert(digits_val(Seq::<char>::empty()) == 0);
        assert(digit_char(n) as int == '0' as int + n);
        assert(digits_val(dec_digits(n)) == digits_val(dec_digits(n).drop_last()) * 10 + (
        dec_digits(n).last() as int - '0' as int));
    } else {
        lemma_digits_val_of_dec_digits(n / 10);
        assert(dec_digits(n) == dec_digits(n / 10) + seq![digit_char(n % 10)]);
        assert(dec_digits(n).drop_last() =~= dec_digits(n / 10));
        assert(dec_digits(n).last() == digit_char(n % 10));
        assert(digit_char(n % 10) as int == '0' as int + n % 10);
        assert(digits_val(dec_digits(n)) == digits_val(dec_digits(n).drop_last()) * 10 + (
        dec_digits(n).last() as int - '0' as int));
        assert(digits_val(dec_digits(n)) == (n / 10) * 10 + n % 10);
    }
}

/// A run of at most `k` digit characters has value below ten to the `k`.
pub proof fn lemma_digits_val_bound(s: Seq<char>, k: int)
    requires
        s.len() <= k,
        forall|j: int| 0 <= j < s.len() ==> ('0' <= #[trigger] s[j] && s[j] <= '9'),
    ensures
        0 <= digits_val(s) < pow10(k),
    decreases s.len(),
{
    if s.len() == 0 {
        lemma_pow10_pos(k);
    } else {
        lemma_digits_val_bound(s.drop_last(), k - 1);
        assert(pow10(k) == 10 * pow10(k - 1));
        assert(s.last() as int - '0' as int <= 9);
    }
}

/// How the decimal text of a machine integer is laid out: an optional
/// leading minus sign, then at most nineteen digit characters, which
/// evaluate back to the magnitude.
pub proof fn lemma_dec_i64_shape(t: Seq<char>, n: int)
    requires
        t == dec_i64(n),
        -0x8000_0000_0000_0000 <= n <= 0x7fff_ffff_ffff_ffff,
    ensures
        ({
            let m = if n < 0 {
                -n
            } else {
                n
            };
            let st: int = if n < 0 {
                1
            } else {
                0
            };
            &&& t.len() == st + dec_digits(m).len()
            &&& 1 <= dec_digits(m).len() <= 19
            &&& (n < 0 <==> t[0] == '-')
            &&& t.skip(st) == dec_digits(m)
            &&& (forall|j: int| st <= j < t.len() ==> ('0' <= #[trigger] t[j] && t[j] <= '9'))
            &&& digits_val(dec_digits(m)) == m
        }),
{
    let m = if n < 0 {
        -n
    } else {
        n
    };
    let st: int = if n < 0 {
        1
    } else {
        0
    };
    lemma_dec_digits_first(m);
    lemma_dec_digits_all_digits(m);
    lemma_digits_val_of_dec_digits(m);
    assert(pow10(19) == 10000000000000000000) by {
        reveal_with_fuel(pow10, 20);
    }
    lemma_dec_digits_len(m, 19);
    if n < 0 {
        assert(t == seq!['-'] + dec_digits(m));
        assert(t.skip(1) =~= dec_digits(m));
        assert(t[0] == '-');
    } else {
        assert(t.skip(0) =~= t);
        assert('0' <= t[0]);
    }
    assert forall|j: int| st <= j < t.len() implies ('0' <= #[trigger] t[j] && t[j] <= '9') by {
        assert(t[j] == t.skip(st)[j - st]);
    }
}

/// A number below ten to the `k` renders to at most `k` digits.
pub proof fn lemma_dec_digits_len(n: int, k: int)
    requires
        0 <= n,
        1 <= k,
        n < pow10(k),
    ensures
        dec_digits(n).len() <= k,
    decreases k,
{
    if n < 10 {
    } else {
        assert(pow10(k) == 10 * pow10(k - 1));
        assert(n / 10 < pow10(k - 1));
        assert(k - 1 >= 1) by {
            if k - 1 < 1 {
                assert(pow10(k) == 10);
                assert(n < 10);
            }
        }
        lemma_dec_digits_len(n / 10, k - 1);
    }
}

/// A decimal rendering holds only ASCII characters.
pub proof fn lemma_dec_i64_ascii(n: int)
    ensures
        vstd::utf8::is_ascii_chars(dec_i64(n)),
        vstd::utf8::is_ascii_chars(dec_digits(if n < 0 {
            -n
        } else {
            n
        })),
    decreases (if n < 0 {
        -n
    } else {
        n
    }),
{
    let m = if n < 0 {
        -n
    } else {
        n
    };
    if m < 10 {
        assert(digit_char(if m < 0 {
            0
        } else {
            m
        }) as int <= '9' as int);
    } else {
        lemma_dec_i64_ascii(m / 10);
        assert(dec_digits(m) == dec_digits(m / 10) + seq![digit_char(m % 10)]);
        assert(digit_char(m % 10) as int <= '9' as int);
        assert forall|i: int| 0 <= i < dec_digits(m).len() implies '\0' <= #[trigger] dec_digits(
            m,
        )[i] <= '\u{7f}' by {
            if i < dec_digits(m / 10).len() {
                assert(dec_digits(m)[i] == dec_digits(m / 10)[i]);
            }
        }
    }
    assert(vstd::utf8::is_ascii_chars(dec_i64(n))) by {
        if n < 0 {
            assert(dec_i64(n) == seq!['-'] + dec_digits(-n));
            assert forall|i: int| 0 <= i < dec_i64(n).len() implies '\0' <= #[trigger] dec_i64(
                n,
            )[i] <= '\u{7f}' by {
                if i > 0 {
                    assert(dec_i64(n)[i] == dec_digits(-n)[i - 1]);
                }
            }
        }
    }
}

/// The decimal rendering of a 64-bit value takes at most 20 characters, and
/// its UTF-8 form the same number of bytes.
pub proof fn lemma_dec_i64_utf8_short(n: int)
    requires
        i64::MIN <= n <= i64::MAX,
    ensures
        vstd::utf8::encode_utf8(dec_i64(n)).len() <= 20,
{
    let m = if n < 0 {
        -n
    } else {
        n
    };
    assert(m < pow10(19)) by {
        reveal_with_fuel(pow10, 20);
        assert(pow10(19) == 10000000000000000000);
    }
    lemma_dec_digits_len(m, 19);
    lemma_dec_i64_ascii(n);
    vstd::utf8::is_ascii_chars_encode_utf8(dec_i64(n));
    if n < 0 {
        assert(dec_i64(n).len() == 1 + dec_digits(m).len());
    }
}

} // verus!
