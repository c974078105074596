use vstd::prelude::*;

use crate::strutil::{chars_of, lower, to_lower_chars};

verus! {

/// The filters a statistics query may narrow by.
#[derive(Debug, Clone)]
pub struct StatsFilter {
    pub after_timestamp: Option<i64>,
    pub machine_id: Option<String>,
    pub group_name: Option<String>,
    pub directory: Option<String>,
}

/// ASCII whitespace as the duration parser strips it.
pub open spec fn is_ws(c: char) -> bool {
    c == ' ' || c == '\t' || c == '\n' || c == '\r'
}

/// The sequence with its leading whitespace removed.
pub open spec fn trim_start(s: Seq<char>) -> Seq<char>
    decreases s.len(),
{
    if s.len() > 0 && is_ws(s[0]) {
        trim_start(s.skip(1))
    } else {
        s
    }
}

/// The sequence with its trailing whitespace removed.
pub open spec fn trim_end(s: Seq<char>) -> Seq<char>
    decreases s.len(),
{
    if s.len() > 0 && is_ws(s.last()) {
        trim_end(s.drop_last())
    } else {
        s
    }
}

/// The sequence with whitespace removed from both ends.
pub open spec fn spec_trim(s: Seq<char>) -> Seq<char> {
    trim_end(trim_start(s))
}

proof fn lemma_trim_start_at(s: Seq<char>, i: int)
    requires
        0 <= i <= s.len(),
        forall|j: int| 0 <= j < i ==> is_ws(#[trigger] s[j]),
        i < s.len() ==> !is_ws(s[i]),
    ensures
        trim_start(s) == s.skip(i),
    decreases i,
{
    if i == 0 {
        assert(s.skip(0) =~= s);
    } else {
        assert(is_ws(s[0]));
        lemma_trim_start_at(s.skip(1), i - 1);
        assert(s.skip(1).skip(i - 1) =~= s.skip(i));
    }
}

proof fn lemma_trim_end_at(s: Seq<char>, j: int)
    requires
        0 <= j <= s.len(),
        forall|k: int| j <= k < s.len() ==> is_ws(#[trigger] s[k]),
        j > 0 ==> !is_ws(s[j - 1]),
    ensures
        trim_end(s) == s.subrange(0, j),
    decreases s.len() - j,
{
    if j == s.len() {
        assert(s.subrange(0, j) =~= s);
    } else {
        assert(is_ws(s.last()));
        lemma_trim_end_at(s.drop_last(), j);
        assert(s.drop_last().subrange(0, j) =~= s.subrange(0, j));
    }
}

/// A decimal digit.
pub open spec fn is_digit(c: char) -> bool {
    '0' <= c && c <= '9'
}

/// Every character is a decimal digit.
pub open spec fn all_digits(s: Seq<char>) -> bool {
    forall|i: int| 0 <= i < s.len() ==> is_digit(#[trigger] s[i])
}

/// The value of a digit string, most significant first.
pub open spec fn digits_value(s: Seq<char>) -> int
    decreases s.len(),
{
    if s.len() == 0 {
        0
    } else {
        digits_value(s.drop_last()) * 10 + (s.last() as int - '0' as int)
    }
}

/// The seconds one unit letter stands for: days, weeks, months of thirty
/// days, years of 365 days.
pub open spec fn unit_seconds(c: char) -> Option<int> {
    if c == 'd' {
        Option::Some(86400)
    } else if c == 'w' {
        Option::Some(604800)
    } else if c == 'm' {
        Option::Some(2592000)
    } else if c == 'y' {
        Option::Some(31536000)
    } else {
        Option::None
    }
}

/// What the duration filter parses to: `all` means no cutoff; a digit
/// string with a unit letter means a cutoff that many seconds before
/// `now_ms`. Anything else, and any value that leaves the representable
/// range, parses to no cutoff at all.
pub open spec fn spec_parse_last(s: Seq<char>, now_ms: int) -> Option<Option<int>> {
    let t = lower(spec_trim(s));
    if t == "all"@ {
        Option::Some(Option::None)
    } else if t.len() < 2 {
        Option::None
    } else {
        let num = t.drop_last();
        let unit = t.last();
        if !all_digits(num) {
            Option::None
        } else {
            match unit_seconds(unit) {
                Option::None => Option::None,
                Option::Some(secs) => {
                    let v = digits_value(num);
                    if v > i64::MAX as int || v * secs * 1000 > i64::MAX as int || now_ms - v
                        * secs * 1000 < i64::MIN as int {
                        Option::None
                    } else {
                        Option::Some(Option::Some(now_ms - v * secs * 1000))
                    }
                },
            }
        }
    }
}

fn parse_digits(s: &Vec<char>, from: usize, to: usize) -> (r: Option<i64>)
    requires
        from <= to <= s@.len(),
    ensures
        ({
            let num = s@.subrange(from as int, to as int);
            match r {
                Option::Some(v) => all_digits(num) && from < to && v == digits_value(num) && v
                    >= 0,
                Option::None => !all_digits(num) || from == to || digits_value(num)
                    > i64::MAX as int,
            }
        }),
{
    if from == to {
        return Option::None;
    }
    let mut v: i64 = 0;
    let mut i: usize = from;
    while i < to
        invariant
            from <= i <= to <= s@.len(),
            all_digits(s@.subrange(from as int, i as int)),
            v == digits_value(s@.subrange(from as int, i as int)),
            0 <= v,
            digits_value(s@.subrange(from as int, i as int)) <= i64::MAX as int,
        decreases to - i,
    {
        let c = s[i];
        if !('0' <= c && c <= '9') {
            proof {
                assert(s@.subrange(from as int, to as int)[i - from] == s@[i as int]);
                assert(!all_digits(s@.subrange(from as int, to as int)));
            }
            return Option::None;
        }
        let d = (c as u32 - '0' as u32) as i64;
        proof {
            let p1 = s@.subrange(from as int, i + 1 as int);
            assert(p1.drop_last() =~= s@.subrange(from as int, i as int));
            assert(p1.last() == s@[i as int]);
        }
        if v > (i64::MAX - d) / 10 {
            proof {
                let num = s@.subrange(from as int, to as int);
                if all_digits(num) {
                    lemma_digits_value_monotone(num, i + 1 - from);
                    assert(num.subrange(0, i + 1 - from) =~= s@.subrange(
                        from as int,
                        i + 1 as int,
                    ));
                    assert(digits_value(num.subrange(0, i + 1 - from)) == v * 10 + d);
                    assert(v * 10 + d > i64::MAX as int);
                    assert(digits_value(num) > i64::MAX as int);
                }
            }
            return Option::None;
        }
        v = v * 10 + d;
        i += 1;
    }
    proof {
        assert(s@.subrange(from as int, i as int) =~= s@.subrange(from as int, to as int));
    }
    Option::Some(v)
}

/// A digit string is worth at least its prefixes.
proof fn lemma_digits_value_monotone(s: Seq<char>, k: int)
    requires
        0 < k <= s.len(),
        all_digits(s),
    ensures
        digits_value(s) >= digits_value(s.subrange(0, k)),
        digits_value(s) >= 0,
    decreases s.len() - k,
{
    assert(all_digits(s.subrange(0, k))) by {
        assert(forall|i: int|
            0 <= i < k ==> s.subrange(0, k)[i] == s[i] && is_digit(#[trigger] s[i]));
    }
    lemma_digits_value_nonneg(s.subrange(0, k));
    if k == s.len() {
        assert(s.subrange(0, k) =~= s);
    } else {
        lemma_digits_value_monotone(s, k + 1);
        let p1 = s.subrange(0, k + 1);
        assert(p1.drop_last() =~= s.subrange(0, k));
        assert(is_digit(p1.last()));
        lemma_digits_value_nonneg(s.subrange(0, k));
        assert(digits_value(p1) >= digits_value(s.subrange(0, k)));
    }
}

proof fn lemma_digits_value_nonneg(s: Seq<char>)
    requires
        all_digits(s),
    ensures
        digits_value(s) >= 0,
    decreases s.len(),
{
    if s.len() > 0 {
        assert(all_digits(s.drop_last())) by {
            assert(forall|i: int| 0 <= i < s.len() - 1 ==> is_digit(#[trigger] s[i]));
        }
        lemma_digits_value_nonneg(s.drop_last());
        assert(is_digit(s.last()));
    }
}

/// Parses a human duration filter such as `7d`, `4w`, `6m`, `1y`, or `all`,
/// into the cutoff timestamp that many seconds before `now_ms`; `all` and
/// anything unreadable mean no cutoff.
pub fn parse_last_filter(last: &str, now_ms: i64) -> (r: Option<i64>)
    ensures
        ({
            match spec_parse_last(last@, now_ms as int) {
                Option::Some(Option::Some(v)) => r matches Option::Some(x) && x == v,
                _ => r is None,
            }
        }),
{
    let raw = chars_of(last);
    let mut start: usize = 0;
    while start < raw.len() && (raw[start] == ' ' || raw[start] == '\t' || raw[start] == '\n'
        || raw[start] == '\r')
        invariant
            start <= raw@.len(),
            forall|j: int| 0 <= j < start ==> is_ws(#[trigger] raw@[j]),
        decreases raw@.len() - start,
    {
        start += 1;
    }
    let mut end: usize = raw.len();
    while end > start && (raw[end - 1] == ' ' || raw[end - 1] == '\t' || raw[end - 1] == '\n'
        || raw[end - 1] == '\r')
        invariant
            start <= end <= raw@.len(),
            forall|j: int| 0 <= j < start ==> is_ws(#[trigger] raw@[j]),
            forall|k: int| end <= k < raw@.len() ==> is_ws(#[trigger] raw@[k]),
        decreases end,
    {
        end -= 1;
    }
    proof {
        lemma_trim_start_at(raw@, start as int);
        let sk = raw@.skip(start as int);
        lemma_trim_end_at(sk, end - start);
        assert(sk.subrange(0, end - start) =~= raw@.subrange(start as int, end as int));
        assert(spec_trim(raw@) == raw@.subrange(start as int, end as int));
    }
    let mut trimmed: Vec<char> = Vec::new();
    let mut i: usize = start;
    while i < end
        invariant
            start <= i <= end <= raw@.len(),
            trimmed@ =~= raw@.subrange(start as int, i as int),
        decreases end - i,
    {
        trimmed.push(raw[i]);
        proof {
            assert(trimmed@ =~= raw@.subrange(start as int, i + 1 as int));
        }
        i += 1;
    }
    let t = to_lower_chars(&trimmed);
    proof {
        assert(t@ == lower(spec_trim(last@)));
    }
    if t.len() == 3 && t[0] == 'a' && t[1] == 'l' && t[2] == 'l' {
        proof {
            reveal_strlit("all");
            assert(t@ =~= "all"@);
        }
        return Option::None;
    }
    proof {
        reveal_strlit("all");
        if t@.len() == 3 {
            assert(t@ != "all"@ ==> !(t@[0] == 'a' && t@[1] == 'l' && t@[2] == 'l'));
        }
        assert(t@ != "all"@);
    }
    if t.len() < 2 {
        return Option::None;
    }
    let unit = t[t.len() - 1];
    let secs: i64 = if unit == 'd' {
        86400
    } else if unit == 'w' {
        604800
    } else if unit == 'm' {
        2592000
    } else if unit == 'y' {
        31536000
    } else {
        return Option::None;
    };
    let v = match parse_digits(&t, 0, t.len() - 1) {
        Option::Some(v) => v,
        Option::None => {
            proof {
                assert(t@.subrange(0, t@.len() - 1) =~= t@.drop_last());
            }
            return Option::None;
        },
    };
    proof {
        assert(t@.subrange(0, t@.len() - 1) =~= t@.drop_last());
    }
    if v > i64::MAX / (secs * 1000) {
        proof {
            assert(v * secs * 1000 > i64::MAX as int) by (nonlinear_arith)
                requires
                    v as int > i64::MAX as int / (secs as int * 1000),
                    secs == 86400 || secs == 604800 || secs == 2592000 || secs == 31536000,
                    v >= 0,
            ;
        }
        return Option::None;
    }
    proof {
        assert(v as int * (secs as int * 1000) <= i64::MAX as int && v as int * (secs as int
            * 1000) == v as int * secs as int * 1000 && v as int * (secs as int * 1000) >= 0)
            by (nonlinear_arith)
            requires
                0 <= v as int <= i64::MAX as int / (secs as int * 1000),
                secs == 86400 || secs == 604800 || secs == 2592000 || secs == 31536000,
        ;
    }
    let total = v * (secs * 1000);
    if now_ms < i64::MIN + total {
        return Option::None;
    }
    Option::Some(now_ms - total)
}

} // verus!
