use vstd::prelude::*;

use crate::strutil::{chars_of, contains_sub, lower, spec_contains_sub, to_lower_chars};

verus! {

/// The case-insensitive substrings that mark an alias as a potential secret.
pub open spec fn secret_markers() -> Seq<Seq<char>> {
    seq![
        "password"@,
        "secret"@,
        "token"@,
        "api_key"@,
        "api-key"@,
        "apikey"@,
        "private_key"@,
        "private-key"@,
        "privatekey"@,
        "credential"@,
        "auth"@,
    ]
}

/// The secret heuristic over a single character sequence: a hit is a
/// case-insensitive occurrence of any marker.
pub open spec fn spec_secret_hit(s: Seq<char>) -> bool {
    exists|k: int|
        0 <= k < secret_markers().len() && spec_contains_sub(lower(s), secret_markers()[k])
}

/// What `check_for_secrets` tests: the name and command joined by one space.
pub open spec fn spec_combined(name: Seq<char>, command: Seq<char>) -> Seq<char> {
    name + seq![' '] + command
}

fn marker_list() -> (r: Vec<Vec<char>>)
    ensures
        r@.len() == secret_markers().len(),
        forall|k: int| 0 <= k < r@.len() ==> r@[k]@ == secret_markers()[k],
{
    let mut r: Vec<Vec<char>> = Vec::new();
    r.push(chars_of("password"));
    r.push(chars_of("secret"));
    r.push(chars_of("token"));
    r.push(chars_of("api_key"));
    r.push(chars_of("api-key"));
    r.push(chars_of("apikey"));
    r.push(chars_of("private_key"));
    r.push(chars_of("private-key"));
    r.push(chars_of("privatekey"));
    r.push(chars_of("credential"));
    r.push(chars_of("auth"));
    r
}

/// Checks whether an alias name or command contains a potential secret:
/// a case-insensitive occurrence of `password`, `secret`, `token`,
/// `api[_-]?key`, `private[_-]?key`, `credential`, or `auth` anywhere in
/// the name or the command.
pub fn check_for_secrets(alias_name: &str, command: &str) -> (r: bool)
    ensures
        r == spec_secret_hit(spec_combined(alias_name@, command@)),
{
    let mut combined = chars_of(alias_name);
    combined.push(' ');
    let mut cmd_chars = chars_of(command);
    combined.append(&mut cmd_chars);
    assert(combined@ =~= spec_combined(alias_name@, command@));
    let lowered = to_lower_chars(&combined);
    let markers = marker_list();
    let mut k: usize = 0;
    while k < markers.len()
        invariant
            lowered@ == lower(spec_combined(alias_name@, command@)),
            markers@.len() == secret_markers().len(),
            forall|j: int| 0 <= j < markers@.len() ==> markers@[j]@ == secret_markers()[j],
            k <= markers@.len(),
            forall|j: int|
                0 <= j < k ==> !spec_contains_sub(
                    lower(spec_combined(alias_name@, command@)),
                    secret_markers()[j],
                ),
        decreases markers@.len() - k,
    {
        if contains_sub(&lowered, &markers[k]) {
            return true;
        }
        k += 1;
    }
    false
}

} // verus!
