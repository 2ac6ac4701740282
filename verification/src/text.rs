//! Text helpers: equality of two names, and the name that a typed line asks
//! for.

use vstd::prelude::*;
use vstd::string::StrSliceExecFns;
use vstd::string::StringSliceAdditionalSpecFns;
use vstd::utf8::encode_utf8_decode_utf8;

verus! {

/// Whether two pieces of text spell the same name. They do exactly when their
/// UTF-8 bytes agree, which is what is compared.
pub fn same_text(a: &str, b: &str) -> (same: bool)
    ensures
        same == (a@ == b@),
{
    let left = a.as_bytes();
    let right = b.as_bytes();
    if left.len() != right.len() {
        return false;
    }
    let mut i: usize = 0;
    while i < left.len()
        invariant
            i <= left.len(),
            left.len() == right.len(),
            left@ == a.spec_bytes(),
            right@ == b.spec_bytes(),
            forall|k: int| 0 <= k < i ==> left@[k] == right@[k],
        decreases left.len() - i,
    {
        if left[i] != right[i] {
            return false;
        }
        i += 1;
    }
    proof {
        assert(left@ =~= right@);
        encode_utf8_decode_utf8(a@);
        encode_utf8_decode_utf8(b@);
    }
    true
}

/// Whether a character is white space, as `char::is_whitespace` of the
/// standard library answers: the Unicode property `White_Space`.
pub uninterp spec fn white_space(c: char) -> bool;

/// Calls `char::is_whitespace`. Its answer depends on the character alone and
/// is taken as the meaning of [`white_space`]; nothing is claimed about which
/// characters those are.
#[verifier::external_body]
fn is_white_space(c: char) -> (white: bool)
    ensures
        white == white_space(c),
{
    c.is_whitespace()
}

/// The text without the white space it begins with.
pub open spec fn trimmed_start(text: Seq<char>) -> Seq<char>
    decreases text.len(),
{
    if text.len() > 0 && white_space(text.first()) {
        trimmed_start(text.drop_first())
    } else {
        text
    }
}

/// The text without the white space it ends with.
pub open spec fn trimmed_end(text: Seq<char>) -> Seq<char>
    decreases text.len(),
{
    if text.len() > 0 && white_space(text.last()) {
        trimmed_end(text.drop_last())
    } else {
        text
    }
}

/// The text without the white space around it.
pub open spec fn trimmed(text: Seq<char>) -> Seq<char> {
    trimmed_end(trimmed_start(text))
}

/// The name that a typed line asks for: the line without the white space
/// around it, the line break included.
pub fn selection(line: &str) -> (name: String)
    ensures
        name@ == trimmed(line@),
{
    let n = line.unicode_len();
    let mut from: usize = 0;
    assert(line@.subrange(0, n as int) =~= line@);
    while from < n && is_white_space(line.get_char(from))
        invariant
            from <= n,
            n == line@.len(),
            trimmed_start(line@) == trimmed_start(line@.subrange(from as int, n as int)),
        decreases n - from,
    {
        assert(line@.subrange(from as int, n as int).drop_first() =~= line@.subrange(
            from + 1,
            n as int,
        ));
        from += 1;
    }
    let ghost rest = line@.subrange(from as int, n as int);
    assert(trimmed_start(line@) == rest);
    let mut to: usize = n;
    while to > from && is_white_space(line.get_char(to - 1))
        invariant
            from <= to <= n,
            n == line@.len(),
            trimmed_end(rest) == trimmed_end(line@.subrange(from as int, to as int)),
            rest == line@.subrange(from as int, n as int),
        decreases to - from,
    {
        assert(line@.subrange(from as int, to as int).drop_last() =~= line@.subrange(
            from as int,
            to - 1,
        ));
        to -= 1;
    }
    line.substring_char(from, to).to_owned()
}

} // verus!
