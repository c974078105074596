use vstd::prelude::*;

use crate::strutil::{chars_of, chars_to_string, contains_sub, spec_contains_sub};

verus! {

/// Detected shell family for the current user.
#[derive(Debug, Clone, Copy, PartialEq, Eq, Structural)]
pub enum ShellType {
    Zsh,
    Bash,
    Fish,
}

/// The single-quote escape used in bash and zsh alias files: close the
/// quote, emit an escaped quote, reopen.
pub open spec fn bash_quote_escape() -> Seq<char> {
    seq!['\'', '\\', '\'', '\'']
}

/// The single-quote escape used in fish alias files.
pub open spec fn fish_quote_escape() -> Seq<char> {
    seq!['\\', '\'']
}

/// Every single quote of `s` replaced by `repl`; other characters kept.
pub open spec fn escape_quotes(s: Seq<char>, repl: Seq<char>) -> Seq<char>
    decreases s.len(),
{
    if s.len() == 0 {
        Seq::empty()
    } else {
        escape_quotes(s.drop_last(), repl) + (if s.last() == '\'' {
            repl
        } else {
            seq![s.last()]
        })
    }
}

fn escape_quotes_exec(s: &Vec<char>, repl: &Vec<char>) -> (r: Vec<char>)
    ensures
        r@ == escape_quotes(s@, repl@),
{
    let mut out: Vec<char> = Vec::new();
    let mut i: usize = 0;
    while i < s.len()
        invariant
            i <= s@.len(),
            out@ =~= escape_quotes(s@.subrange(0, i as int), repl@),
        decreases s@.len() - i,
    {
        let c = s[i];
        if c == '\'' {
            let mut j: usize = 0;
            while j < repl.len()
                invariant
                    j <= repl@.len(),
                    out@ =~= escape_quotes(s@.subrange(0, i as int), repl@) + repl@.subrange(
                        0,
                        j as int,
                    ),
                decreases repl@.len() - j,
            {
                out.push(repl[j]);
                proof {
                    assert(out@ =~= escape_quotes(s@.subrange(0, i as int), repl@)
                        + repl@.subrange(0, j + 1 as int));
                }
                j += 1;
            }
            proof {
                assert(repl@.subrange(0, repl@.len() as int) =~= repl@);
            }
        } else {
            out.push(c);
        }
        proof {
            let p1 = s@.subrange(0, i + 1 as int);
            assert(p1.drop_last() =~= s@.subrange(0, i as int));
            assert(p1.last() == s@[i as int]);
            assert(out@ =~= escape_quotes(p1, repl@));
        }
        i += 1;
    }
    proof {
        assert(s@.subrange(0, s@.len() as int) =~= s@);
    }
    out
}

/// The alias line a shell file carries for (name, command), with the
/// shell's own quoting.
pub open spec fn spec_format_alias(t: ShellType, name: Seq<char>, command: Seq<char>) -> Seq<char> {
    match t {
        ShellType::Fish => "alias "@ + name + " '"@ + escape_quotes(command, fish_quote_escape())
            + "'"@,
        _ => "alias "@ + name + "='"@ + escape_quotes(command, bash_quote_escape()) + "'"@,
    }
}

/// The line that makes a shell RC file load the alias file.
pub open spec fn spec_source_line(t: ShellType, alias_file: Seq<char>) -> Seq<char> {
    match t {
        ShellType::Fish => "source \""@ + alias_file + "\""@,
        _ => "[ -f \""@ + alias_file + "\" ] && source \""@ + alias_file + "\""@,
    }
}

impl ShellType {
    /// File extension for the alias output file.
    pub fn alias_extension(&self) -> (r: &'static str)
        ensures
            r@ == (match *self {
                ShellType::Fish => "fish"@,
                _ => "sh"@,
            }),
    {
        match self {
            ShellType::Fish => "fish",
            _ => "sh",
        }
    }

    /// The line to add to the shell RC file so it loads `alias_file`.
    pub fn source_line(&self, alias_file: &str) -> (r: String)
        ensures
            r@ == spec_source_line(*self, alias_file@),
    {
        let mut s = String::new();
        match self {
            ShellType::Fish => {
                s.append("source \"");
                s.append(alias_file);
                s.append("\"");
            },
            _ => {
                s.append("[ -f \"");
                s.append(alias_file);
                s.append("\" ] && source \"");
                s.append(alias_file);
                s.append("\"");
            },
        }
        s
    }

    /// One alias line for this shell, with the command's single quotes
    /// escaped in the shell's own way.
    pub fn format_alias(&self, name: &str, command: &str) -> (r: String)
        ensures
            r@ == spec_format_alias(*self, name@, command@),
    {
        let cmd = chars_of(command);
        match self {
            ShellType::Fish => {
                let mut repl: Vec<char> = Vec::new();
                repl.push('\\');
                repl.push('\'');
                proof {
                    assert(repl@ =~= fish_quote_escape());
                }
                let escaped = escape_quotes_exec(&cmd, &repl);
                let mut s = String::new();
                s.append("alias ");
                s.append(name);
                s.append(" '");
                let esc = chars_to_string(&escaped);
                s.append(esc.as_str());
                s.append("'");
                s
            },
            _ => {
                let mut repl: Vec<char> = Vec::new();
                repl.push('\'');
                repl.push('\\');
                repl.push('\'');
                repl.push('\'');
                proof {
                    assert(repl@ =~= bash_quote_escape());
                }
                let escaped = escape_quotes_exec(&cmd, &repl);
                let mut s = String::new();
                s.append("alias ");
                s.append(name);
                s.append("='");
                let esc = chars_to_string(&escaped);
                s.append(esc.as_str());
                s.append("'");
                s
            },
        }
    }
}

/// Picks the shell family from a shell path: a path naming `zsh` or `fish`
/// selects that shell; anything else falls back to bash.
pub fn detect_shell_from(shell_path: &str) -> (r: ShellType)
    ensures
        r == (if spec_contains_sub(shell_path@, "zsh"@) {
            ShellType::Zsh
        } else if spec_contains_sub(shell_path@, "fish"@) {
            ShellType::Fish
        } else {
            ShellType::Bash
        }),
{
    let path = chars_of(shell_path);
    let zsh = chars_of("zsh");
    let fish = chars_of("fish");
    if contains_sub(&path, &zsh) {
        ShellType::Zsh
    } else if contains_sub(&path, &fish) {
        ShellType::Fish
    } else {
        ShellType::Bash
    }
}

} // verus!
