use vstd::prelude::*;

verus! {

/// A character the alias-name class admits: an ASCII letter, an ASCII
/// digit, underscore, dot, or dash.
pub open spec fn valid_alias_char(c: char) -> bool {
    ('A' <= c && c <= 'Z') || ('a' <= c && c <= 'z') || ('0' <= c && c <= '9') || c == '_' || c
        == '.' || c == '-'
}

/// A well-formed alias name: every character is in the allowed class.
pub open spec fn valid_alias_name(s: Seq<char>) -> bool {
    forall|i: int| 0 <= i < s.len() ==> valid_alias_char(#[trigger] s[i])
}

/// Checks an alias name against the allowed character class.
pub fn is_valid_alias_name(name: &str) -> (r: bool)
    ensures
        r == valid_alias_name(name@),
{
    let len = name.unicode_len();
    let mut i: usize = 0;
    while i < len
        invariant
            len == name@.len(),
            i <= len,
            forall|j: int| 0 <= j < i ==> valid_alias_char(#[trigger] name@[j]),
        decreases len - i,
    {
        let c = name.get_char(i);
        if !(('A' <= c && c <= 'Z') || ('a' <= c && c <= 'z') || ('0' <= c && c <= '9') || c == '_'
            || c == '.' || c == '-') {
            return false;
        }
        i += 1;
    }
    true
}

} // verus!
