//! What a script printed: from captured bytes to the text that may become a cache token.

use vstd::prelude::*;
use vstd::std_specs::iter::IteratorSpec;
use vstd::string::StrSliceExecFns;
use vstd::string::StringExecFns;
use vstd::utf8::decode_utf8;
use vstd::utf8::valid_utf8;
use crate::error::ErrorKind;

verus! {

/// Whether `c` has the Unicode property White_Space, as std's `char::is_whitespace` tells it.
pub uninterp spec fn white_space(c: char) -> bool;

/// std's `char::is_whitespace`.
#[verifier::external_body]
fn is_white_space(c: char) -> (r: bool)
    ensures
        r == white_space(c),
{
    c.is_whitespace()
}

/// The number of white space characters that `s` begins with.
pub open spec fn leading_space(s: Seq<char>) -> nat
    decreases s.len(),
{
    if s.len() > 0 && white_space(s[0]) {
        1 + leading_space(s.drop_first())
    } else {
        0
    }
}

/// The number of white space characters that `s` ends with.
pub open spec fn trailing_space(s: Seq<char>) -> nat
    decreases s.len(),
{
    if s.len() > 0 && white_space(s.last()) {
        1 + trailing_space(s.drop_last())
    } else {
        0
    }
}

/// `s` without the white space around it.
pub open spec fn trimmed(s: Seq<char>) -> Seq<char> {
    let t = s.skip(leading_space(s) as int);
    t.take(t.len() - trailing_space(t))
}

/// Where `n` white space characters come first and no more, `n` is the leading space.
proof fn lemma_leading_space(s: Seq<char>, n: int)
    requires
        0 <= n <= s.len(),
        forall|i: int| 0 <= i < n ==> white_space(#[trigger] s[i]),
        n < s.len() ==> !white_space(s[n]),
    ensures
        leading_space(s) == n,
    decreases n,
{
    if n > 0 {
        lemma_leading_space(s.drop_first(), n - 1);
    }
}

/// Where `n` white space characters come last and no more, `n` is the trailing space.
proof fn lemma_trailing_space(s: Seq<char>, n: int)
    requires
        0 <= n <= s.len(),
        forall|i: int| s.len() - n <= i < s.len() ==> white_space(#[trigger] s[i]),
        n < s.len() ==> !white_space(s[s.len() - n - 1]),
    ensures
        trailing_space(s) == n,
    decreases n,
{
    if n > 0 {
        lemma_trailing_space(s.drop_last(), n - 1);
    }
}

/// `s` without the white space around it.
pub fn trim(s: &str) -> (r: String)
    ensures
        r@ == trimmed(s@),
{
    let mut it = s.chars();
    let mut i: usize = 0;
    let mut start: usize = 0;
    let mut end: usize = 0;
    let mut seen: bool = false;
    let n = s.unicode_len();
    loop
        invariant
            n == s@.len(),
            i <= n,
            it.remaining() == s@.skip(i as int),
            seen ==> start < end <= i && !white_space(s@[start as int]) && !white_space(s@[end - 1]),
            seen ==> forall|j: int| 0 <= j < start ==> white_space(#[trigger] s@[j]),
            seen ==> forall|j: int| end <= j < i ==> white_space(#[trigger] s@[j]),
            !seen ==> forall|j: int| 0 <= j < i ==> white_space(#[trigger] s@[j]),
        ensures
            i == n,
        decreases n - i,
    {
        match it.next() {
            Some(c) => {
                assert(c == s@[i as int]);
                assert(s@.skip(i as int).drop_first() =~= s@.skip(i + 1));
                if !is_white_space(c) {
                    if !seen {
                        start = i;
                        seen = true;
                    }
                    end = i + 1;
                }
                i += 1;
            },
            None => {
                break ;
            },
        }
    }
    if !seen {
        proof {
            lemma_leading_space(s@, n as int);
            assert(trimmed(s@) =~= Seq::<char>::empty());
        }
        return String::new();
    }
    proof {
        lemma_leading_space(s@, start as int);
        let t = s@.skip(start as int);
        lemma_trailing_space(t, n - end);
        assert(trimmed(s@) =~= s@.subrange(start as int, end as int));
    }
    String::from_str(s.substring_char(start, end))
}

/// std's `String::from_utf8`: the text that the bytes encode, or nothing where they are not
/// valid UTF-8.
#[verifier::external_body]
fn text_of_bytes(bytes: Vec<u8>) -> (r: Option<String>)
    ensures
        r is Some <==> valid_utf8(bytes@),
        r is Some ==> r.unwrap()@ == decode_utf8(bytes@),
{
    String::from_utf8(bytes).ok()
}

/// What captured output means: its text without the white space around it, where it is text.
pub open spec fn decoded_output(stdout: Seq<u8>) -> Result<Seq<char>, ErrorKind> {
    if valid_utf8(stdout) {
        Ok(trimmed(decode_utf8(stdout)))
    } else {
        Err(ErrorKind::ProcessOutputDecodeFailure)
    }
}

/// Decodes what a script printed and trims it. Output that is not valid UTF-8 is an error;
/// empty output is the empty text.
pub fn decode_output(stdout: Vec<u8>) -> (r: Result<String, ErrorKind>)
    ensures
        match r {
            Ok(s) => decoded_output(stdout@) == Ok::<Seq<char>, ErrorKind>(s@),
            Err(e) => decoded_output(stdout@) == Err::<Seq<char>, ErrorKind>(e),
        },
{
    match text_of_bytes(stdout) {
        Some(text) => Ok(trim(text.as_str())),
        None => Err(ErrorKind::ProcessOutputDecodeFailure),
    }
}

} // verus!
