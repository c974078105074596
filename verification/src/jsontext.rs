use vstd::prelude::*;

use crate::strutil::{chars_of, dec_i64, fmt_i64};

verus! {

/// The hexadecimal digit for one value below sixteen, lower case.
pub open spec fn hex_char(d: int) -> char {
    if d < 10 {
        (('0' as u8) + d as u8) as char
    } else {
        (('a' as u8) + (d - 10) as u8) as char
    }
}

/// The JSON escape of one character: quotes, backslashes, and control
/// characters are escaped; everything else stands for itself.
pub open spec fn json_escape_char(c: char) -> Seq<char> {
    if c == '"' {
        seq!['\\', '"']
    } else if c == '\\' {
        seq!['\\', '\\']
    } else if c == '\n' {
        seq!['\\', 'n']
    } else if c == '\r' {
        seq!['\\', 'r']
    } else if c == '\t' {
        seq!['\\', 't']
    } else if (c as u32) < 32 {
        seq!['\\', 'u', '0', '0', hex_char(c as int / 16), hex_char(c as int % 16)]
    } else {
        seq![c]
    }
}

/// The JSON escape of a character sequence.
pub open spec fn json_escape(s: Seq<char>) -> Seq<char>
    decreases s.len(),
{
    if s.len() == 0 {
        Seq::empty()
    } else {
        json_escape(s.drop_last()) + json_escape_char(s.last())
    }
}

/// A JSON string literal: the escaped characters between quotes.
pub open spec fn json_quoted(s: Seq<char>) -> Seq<char> {
    seq!['"'] + json_escape(s) + seq!['"']
}

fn push_escaped_char(out: &mut Vec<char>, c: char)
    ensures
        final(out)@ == old(out)@ + json_escape_char(c),
{
    let ghost prev = out@;
    if c == '"' {
        out.push('\\');
        out.push('"');
    } else if c == '\\' {
        out.push('\\');
        out.push('\\');
    } else if c == '\n' {
        out.push('\\');
        out.push('n');
    } else if c == '\r' {
        out.push('\\');
        out.push('r');
    } else if c == '\t' {
        out.push('\\');
        out.push('t');
    } else if (c as u32) < 32 {
        out.push('\\');
        out.push('u');
        out.push('0');
        out.push('0');
        let v = c as u32;
        let hi = (v / 16) as u8;
        let lo = (v % 16) as u8;
        out.push(
            if hi < 10 {
                (('0' as u8) + hi) as char
            } else {
                (('a' as u8) + (hi - 10)) as char
            },
        );
        out.push(
            if lo < 10 {
                (('0' as u8) + lo) as char
            } else {
                (('a' as u8) + (lo - 10)) as char
            },
        );
    } else {
        out.push(c);
    }
    proof {
        assert(out@ =~= prev + json_escape_char(c));
    }
}

/// Appends a JSON string literal for `v` to `out`.
pub fn push_quoted(out: &mut Vec<char>, v: &str)
    ensures
        final(out)@ == old(out)@ + json_quoted(v@),
{
    let ghost start = out@;
    out.push('"');
    let chars = chars_of(v);
    let mut i: usize = 0;
    while i < chars.len()
        invariant
            chars@ == v@,
            i <= chars@.len(),
            out@ =~= start + seq!['"'] + json_escape(v@.subrange(0, i as int)),
        decreases chars@.len() - i,
    {
        push_escaped_char(out, chars[i]);
        proof {
            let p1 = v@.subrange(0, i + 1 as int);
            assert(p1.drop_last() =~= v@.subrange(0, i as int));
            assert(p1.last() == v@[i as int]);
            assert(out@ =~= start + seq!['"'] + json_escape(p1));
        }
        i += 1;
    }
    proof {
        assert(v@.subrange(0, v@.len() as int) =~= v@);
    }
    out.push('"');
    proof {
        assert(out@ =~= start + json_quoted(v@));
    }
}

/// Appends a literal piece of JSON syntax to `out`.
pub fn push_lit(out: &mut Vec<char>, lit: &str)
    ensures
        final(out)@ == old(out)@ + lit@,
{
    let ghost start = out@;
    let chars = chars_of(lit);
    let mut i: usize = 0;
    while i < chars.len()
        invariant
            chars@ == lit@,
            i <= chars@.len(),
            out@ =~= start + lit@.subrange(0, i as int),
        decreases chars@.len() - i,
    {
        out.push(chars[i]);
        proof {
            assert(out@ =~= start + lit@.subrange(0, i + 1 as int));
        }
        i += 1;
    }
    proof {
        assert(lit@.subrange(0, lit@.len() as int) =~= lit@);
    }
}

/// Appends the decimal rendering of a number to `out`.
pub fn push_i64(out: &mut Vec<char>, n: i64)
    ensures
        final(out)@ == old(out)@ + dec_i64(n as int),
{
    let mut digits = fmt_i64(n);
    out.append(&mut digits);
}

/// Appends the decimal rendering of a 32-bit number to `out`.
pub fn push_i32(out: &mut Vec<char>, n: i32)
    ensures
        final(out)@ == old(out)@ + dec_i64(n as int),
{
    push_i64(out, n as i64);
}


/// The escape of a sequence, unfolded at the front.
pub proof fn lemma_escape_front(s: Seq<char>)
    requires
        s.len() > 0,
    ensures
        json_escape(s) == json_escape_char(s[0]) + json_escape(s.skip(1)),
    decreases s.len(),
{
    if s.len() == 1 {
        assert(s.drop_last().len() == 0);
        assert(json_escape(s.drop_last()) =~= Seq::<char>::empty());
        assert(s.skip(1).len() == 0);
        assert(json_escape(s.skip(1)) =~= Seq::<char>::empty());
        assert(json_escape(s) =~= json_escape_char(s[0]) + json_escape(s.skip(1)));
    } else {
        lemma_escape_front(s.drop_last());
        assert(s.drop_last()[0] == s[0]);
        assert(s.drop_last().skip(1) =~= s.skip(1).drop_last());
        assert(s.skip(1).last() == s.last());
        assert(json_escape(s.skip(1)) == json_escape(s.skip(1).drop_last()) + json_escape_char(
            s.skip(1).last(),
        ));
        assert(json_escape(s) =~= json_escape_char(s[0]) + json_escape(s.skip(1)));
    }
}

/// No escape unit starts with a bare quote, and a unit starts with a
/// backslash exactly when its character needed escaping.
pub proof fn lemma_escape_char_shape(c: char)
    ensures
        json_escape_char(c).len() >= 1,
        json_escape_char(c)[0] != '"',
        (json_escape_char(c)[0] == '\\') == (c == '"' || c == '\\' || (c as u32) < 32),
        json_escape_char(c)[0] != '\\' ==> json_escape_char(c) == seq![c],
{
}

/// Two escape units at the front of equal texts are the same unit for the
/// same character.
proof fn lemma_escape_unit_prefix(a0: char, b0: char, ra: Seq<char>, rb: Seq<char>)
    requires
        json_escape_char(a0) + ra == json_escape_char(b0) + rb,
    ensures
        a0 == b0,
        ra == rb,
{
    let ua = json_escape_char(a0);
    let ub = json_escape_char(b0);
    let whole = ua + ra;
    lemma_escape_char_shape(a0);
    lemma_escape_char_shape(b0);
    assert(whole[0] == ua[0] && whole[0] == ub[0]);
    if ua[0] != '\\' {
        assert(ua == seq![a0] && ub == seq![b0]);
        assert(a0 == b0);
        assert((ua + ra).skip(1) =~= ra);
        assert((ub + rb).skip(1) =~= rb);
        assert(ra =~= rb);
    } else {
        assert(a0 == '"' || a0 == '\\' || (a0 as u32) < 32);
        assert(b0 == '"' || b0 == '\\' || (b0 as u32) < 32);
        assert(ua.len() >= 2 && ub.len() >= 2);
        assert(whole[1] == ua[1] && whole[1] == ub[1]);
        if ua[1] == 'u' {
            assert((a0 as u32) < 32 && a0 != '\n' && a0 != '\r' && a0 != '\t');
            assert(ub[1] == 'u');
            assert((b0 as u32) < 32 && b0 != '\n' && b0 != '\r' && b0 != '\t');
            assert(whole[4] == ua[4] && whole[4] == ub[4]);
            assert(whole[5] == ua[5] && whole[5] == ub[5]);
            assert(hex_char(a0 as int / 16) == hex_char(b0 as int / 16));
            assert(hex_char(a0 as int % 16) == hex_char(b0 as int % 16));
            assert(a0 as int / 16 == b0 as int / 16 && a0 as int % 16 == b0 as int % 16) by {
                lemma_hex_char_injective(a0 as int / 16, b0 as int / 16);
                lemma_hex_char_injective(a0 as int % 16, b0 as int % 16);
            }
            vstd::utf8::char_u32_cast(a0, a0 as u32);
            vstd::utf8::char_u32_cast(b0, b0 as u32);
            assert(a0 == b0);
            assert(ua.len() == 6 && ub.len() == 6);
            assert((ua + ra).skip(6) =~= ra);
            assert((ub + rb).skip(6) =~= rb);
            assert(ra =~= rb);
        } else {
            assert(ub[1] != 'u');
            assert(ua.len() == 2 && ub.len() == 2);
            assert(ua[1] == ub[1]);
            assert(a0 == b0);
            assert((ua + ra).skip(2) =~= ra);
            assert((ub + rb).skip(2) =~= rb);
            assert(ra =~= rb);
        }
    }
}

pub proof fn lemma_hex_char_injective(d1: int, d2: int)
    requires
        0 <= d1 < 16,
        0 <= d2 < 16,
        hex_char(d1) == hex_char(d2),
    ensures
        d1 == d2,
{
    assert(hex_char(d1) as int == hex_char(d2) as int);
}

/// A quote-terminated escaped text determines the escaped characters and
/// what follows the closing quote.
proof fn lemma_escaped_terminated(a: Seq<char>, b: Seq<char>, ra: Seq<char>, rb: Seq<char>)
    requires
        json_escape(a) + seq!['"'] + ra == json_escape(b) + seq!['"'] + rb,
    ensures
        a == b,
        ra == rb,
    decreases a.len(),
{
    if a.len() == 0 {
        assert(json_escape(a).len() == 0);
        if b.len() > 0 {
            lemma_escape_front(b);
            lemma_escape_char_shape(b[0]);
            let rhs = json_escape(b) + seq!['"'] + rb;
            assert(rhs[0] == json_escape_char(b[0])[0]);
            let lhs = json_escape(a) + seq!['"'] + ra;
            assert(lhs[0] == '"');
            assert(false);
        }
        assert(json_escape(b).len() == 0);
        assert((json_escape(a) + seq!['"'] + ra).skip(1) =~= ra);
        assert((json_escape(b) + seq!['"'] + rb).skip(1) =~= rb);
        assert(ra =~= rb);
        assert(a =~= b);
    } else {
        if b.len() == 0 {
            lemma_escape_front(a);
            lemma_escape_char_shape(a[0]);
            let lhs = json_escape(a) + seq!['"'] + ra;
            assert(lhs[0] == json_escape_char(a[0])[0]);
            let rhs = json_escape(b) + seq!['"'] + rb;
            assert(rhs[0] == '"');
            assert(false);
        }
        lemma_escape_front(a);
        lemma_escape_front(b);
        assert(json_escape(a) + seq!['"'] + ra =~= json_escape_char(a[0]) + (json_escape(
            a.skip(1),
        ) + seq!['"'] + ra));
        assert(json_escape(b) + seq!['"'] + rb =~= json_escape_char(b[0]) + (json_escape(
            b.skip(1),
        ) + seq!['"'] + rb));
        lemma_escape_unit_prefix(
            a[0],
            b[0],
            json_escape(a.skip(1)) + seq!['"'] + ra,
            json_escape(b.skip(1)) + seq!['"'] + rb,
        );
        lemma_escaped_terminated(a.skip(1), b.skip(1), ra, rb);
        assert(a =~= seq![a[0]] + a.skip(1));
        assert(b =~= seq![b[0]] + b.skip(1));
    }
}

/// A JSON string literal is a prefix code: equal texts starting with two
/// literals carry the same string and the same remainder.
pub proof fn lemma_quoted_prefix(a: Seq<char>, b: Seq<char>, ra: Seq<char>, rb: Seq<char>)
    requires
        json_quoted(a) + ra == json_quoted(b) + rb,
    ensures
        a == b,
        ra == rb,
{
    assert(json_quoted(a) + ra =~= seq!['"'] + (json_escape(a) + seq!['"'] + ra));
    assert(json_quoted(b) + rb =~= seq!['"'] + (json_escape(b) + seq!['"'] + rb));
    assert(json_escape(a) + seq!['"'] + ra =~= json_escape(b) + seq!['"'] + rb) by {
        let l = seq!['"'] + (json_escape(a) + seq!['"'] + ra);
        let r = seq!['"'] + (json_escape(b) + seq!['"'] + rb);
        assert(l =~= r);
        assert(l.skip(1) =~= json_escape(a) + seq!['"'] + ra);
        assert(r.skip(1) =~= json_escape(b) + seq!['"'] + rb);
    }
    lemma_escaped_terminated(a, b, ra, rb);
}


/// Escaping distributes over concatenation.
pub proof fn lemma_escape_concat(a: Seq<char>, b: Seq<char>)
    ensures
        json_escape(a + b) == json_escape(a) + json_escape(b),
    decreases b.len(),
{
    if b.len() == 0 {
        assert(a + b =~= a);
        assert(json_escape(a) + json_escape(b) =~= json_escape(a));
    } else {
        lemma_escape_concat(a, b.drop_last());
        assert((a + b).drop_last() =~= a + b.drop_last());
        assert((a + b).last() == b.last());
        assert(json_escape(a + b) =~= json_escape(a) + json_escape(b));
    }
}

/// A unit starting with a backslash has at least two characters.
pub proof fn lemma_unit_backslash(c: char)
    requires
        json_escape_char(c)[0] == '\\',
    ensures
        json_escape_char(c).len() >= 2,
        c == '"' || c == '\\' || (c as u32) < 32,
{
    lemma_escape_char_shape(c);
}

/// A unit whose second character is `u` is the six-character form for a
/// control character outside newline, carriage return and tab.
pub proof fn lemma_unit_u(c: char)
    requires
        json_escape_char(c).len() >= 2,
        json_escape_char(c)[1] == 'u',
    ensures
        (c as u32) < 32,
        c != '\n' && c != '\r' && c != '\t' && c != '"' && c != '\\',
        json_escape_char(c) == seq![
            '\\',
            'u',
            '0',
            '0',
            hex_char(c as int / 16),
            hex_char(c as int % 16),
        ],
{
}

/// A partially escaped text aligns on escape units: if the escape of `out`
/// is a prefix of a quote-terminated escaped text for `v`, then `out` is a
/// prefix of `v` and the remainder continues the escape of the rest of `v`.
pub proof fn lemma_escape_align(out: Seq<char>, v: Seq<char>, tail: Seq<char>, rest: Seq<char>)
    requires
        json_escape(out) + tail == json_escape(v) + seq!['"'] + rest,
    ensures
        out.len() <= v.len(),
        out == v.take(out.len() as int),
        tail == json_escape(v.skip(out.len() as int)) + seq!['"'] + rest,
    decreases out.len(),
{
    if out.len() == 0 {
        assert(json_escape(out).len() == 0);
        assert(out =~= v.take(0));
        assert(v.skip(0) =~= v);
        assert(tail =~= json_escape(v) + seq!['"'] + rest);
    } else {
        if v.len() == 0 {
            lemma_escape_front(out);
            lemma_escape_char_shape(out[0]);
            let lhs = json_escape(out) + tail;
            assert(lhs[0] == json_escape_char(out[0])[0]);
            let rhs = json_escape(v) + seq!['"'] + rest;
            assert(rhs[0] == '"');
            assert(false);
        }
        lemma_escape_front(out);
        lemma_escape_front(v);
        assert(json_escape(out) + tail =~= json_escape_char(out[0]) + (json_escape(out.skip(1))
            + tail));
        assert(json_escape(v) + seq!['"'] + rest =~= json_escape_char(v[0]) + (json_escape(
            v.skip(1),
        ) + seq!['"'] + rest));
        lemma_escape_unit_prefix(
            out[0],
            v[0],
            json_escape(out.skip(1)) + tail,
            json_escape(v.skip(1)) + seq!['"'] + rest,
        );
        lemma_escape_align(out.skip(1), v.skip(1), tail, rest);
        assert(out =~= seq![out[0]] + out.skip(1));
        assert(out.skip(1) == v.skip(1).take(out.len() - 1));
        assert(out == v.take(out.len() as int)) by {
            assert forall|i: int| 0 <= i < out.len() implies out[i] == v.take(
                out.len() as int,
            )[i] by {
                if i > 0 {
                    assert(out[i] == out.skip(1)[i - 1]);
                    assert(out.skip(1)[i - 1] == v.skip(1).take(out.len() - 1)[i - 1]);
                }
            }
            assert(out =~= v.take(out.len() as int));
        }
        assert(v.skip(1).skip(out.len() - 1) =~= v.skip(out.len() as int));
    }
}

} // verus!
