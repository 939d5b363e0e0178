//! Quoting of arguments for PowerShell.
//!
//! An argument is wrapped in single quotes and each double quote in it gets a
//! backslash in front. A single quote inside the argument is left as it is, so
//! such an argument breaks the quoting.

use vstd::prelude::*;
use vstd::string::StringExecFns;
use crate::text::same_text;

verus! {

/// `s` with every occurrence of `from` replaced by `to`.
pub open spec fn replace_char(s: Seq<char>, from: char, to: Seq<char>) -> Seq<char>
    decreases s.len(),
{
    if s.len() == 0 {
        Seq::empty()
    } else if s[0] == from {
        to + replace_char(s.drop_first(), from, to)
    } else {
        seq![s[0]] + replace_char(s.drop_first(), from, to)
    }
}

/// A backslash and a double quote: what stands for a double quote inside an escaped argument.
pub open spec fn escaped_quote() -> Seq<char> {
    seq!['\\', '"']
}

/// The escaped form of `s`.
pub open spec fn escaped(s: Seq<char>) -> Seq<char> {
    seq!['\''] + replace_char(s, '"', escaped_quote()) + seq!['\'']
}

/// `e` with each backslash that a double quote follows taken out, reading from the left.
pub open spec fn unescape_quotes(e: Seq<char>) -> Seq<char>
    decreases e.len(),
{
    if e.len() == 0 {
        Seq::empty()
    } else if e.len() >= 2 && e[0] == '\\' && e[1] == '"' {
        seq!['"'] + unescape_quotes(e.skip(2))
    } else {
        seq![e[0]] + unescape_quotes(e.drop_first())
    }
}

/// What a single-quoted string holds between its quotes. A string that does not begin and end
/// with a single quote, or has one in between, is no single-quoted string.
pub open spec fn single_quoted_body(e: Seq<char>) -> Option<Seq<char>> {
    if e.len() >= 2 && e[0] == '\'' && e.last() == '\'' && !e.subrange(1, e.len() - 1).contains('\'') {
        Some(e.subrange(1, e.len() - 1))
    } else {
        None
    }
}

/// The argument that an escaped form stands for.
pub open spec fn unescaped(e: Seq<char>) -> Option<Seq<char>> {
    match single_quoted_body(e) {
        Some(body) => Some(unescape_quotes(body)),
        None => None,
    }
}

/// The names under which PowerShell is started.
pub open spec fn is_powershell_name(shell: Seq<char>) -> bool {
    shell == "powershell"@ || shell == "powershell.exe"@ || shell == "pwsh"@ || shell == "pwsh.exe"@
}

/// std's `str::replace` with a `char` as the pattern: each occurrence of `from` becomes `to`,
/// every other character stays.
#[verifier::external_body]
fn replace_all(s: &str, from: char, to: &str) -> (r: String)
    ensures
        r@ == replace_char(s@, from, to@),
{
    s.replace(from, to)
}

/// Wraps `s` in single quotes and puts a backslash before each double quote.
pub fn escape_pwsh(s: &str) -> (r: String)
    ensures
        r@ == escaped(s@),
{
    proof {
        reveal_strlit("\\\"");
        reveal_strlit("'");
    }
    let inner = replace_all(s, '"', "\\\"");
    assert("\\\""@ =~= escaped_quote());
    assert("'"@ =~= seq!['\'']);
    let r = String::from_str("'").concat(inner.as_str()).concat("'");
    r
}

/// Whether `shell` is one of the names under which PowerShell is started.
pub fn is_powershell(shell: &str) -> (r: bool)
    ensures
        r == is_powershell_name(shell@),
{
    same_text(shell, "powershell") || same_text(shell, "powershell.exe") || same_text(shell, "pwsh")
        || same_text(shell, "pwsh.exe")
}

/// Replacing characters other than the single quote by text without one brings in no single quote.
pub proof fn lemma_replace_keeps_quote_free(s: Seq<char>)
    requires
        !s.contains('\''),
    ensures
        !replace_char(s, '"', escaped_quote()).contains('\''),
    decreases s.len(),
{
    let r = replace_char(s, '"', escaped_quote());
    if s.len() > 0 {
        let rest = replace_char(s.drop_first(), '"', escaped_quote());
        assert forall|i: int| 0 <= i < s.drop_first().len() implies s.drop_first()[i] != '\'' by {
            assert(s.contains(s[i + 1]));
        }
        lemma_replace_keeps_quote_free(s.drop_first());
        assert(s.contains(s[0]));
        if r.contains('\'') {
            let i = choose|i: int| 0 <= i < r.len() && r[i] == '\'';
            if s[0] == '"' {
                if i >= 2 {
                    assert(rest[i - 2] == '\'');
                }
            } else {
                if i >= 1 {
                    assert(rest[i - 1] == '\'');
                }
            }
        }
    }
}

/// Taking the backslashes out again gives back what was escaped, whatever it holds.
pub proof fn lemma_unescape_quotes(s: Seq<char>)
    ensures
        unescape_quotes(replace_char(s, '"', escaped_quote())) == s,
    decreases s.len(),
{
    let e = replace_char(s, '"', escaped_quote());
    if s.len() > 0 {
        let tail = s.drop_first();
        let rest = replace_char(tail, '"', escaped_quote());
        lemma_unescape_quotes(tail);
        if s[0] == '"' {
            assert(e.skip(2) =~= rest);
        } else {
            assert(e.drop_first() =~= rest);
            if s[0] == '\\' && tail.len() > 0 {
                assert(rest[0] != '"');
            }
        }
        assert(s =~= seq![s[0]] + tail);
    }
}

/// An argument without a single quote comes back unchanged from its escaped form.
pub proof fn lemma_escape_round_trip(s: Seq<char>)
    requires
        !s.contains('\''),
    ensures
        unescaped(escaped(s)) == Some(s),
{
    let inner = replace_char(s, '"', escaped_quote());
    let e = escaped(s);
    lemma_replace_keeps_quote_free(s);
    lemma_unescape_quotes(s);
    assert(e.subrange(1, e.len() - 1) =~= inner);
}

} // verus!
