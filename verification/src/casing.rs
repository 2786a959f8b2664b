//! Letter case as Unicode defines it, by the standard library's tables.
use vstd::prelude::*;

use crate::text::chars_of;

verus! {

/// What `char::to_lowercase` yields for `c`.
pub uninterp spec fn char_lowercase(c: char) -> Seq<char>;

/// What `str::to_uppercase` returns for the text `s`.
pub uninterp spec fn uppercase(s: Seq<char>) -> Seq<char>;

/// `c` in lower case where it is an ASCII letter, else `c`.
pub open spec fn ascii_lower(c: char) -> char {
    if 'A' <= c <= 'Z' {
        (c as int + 32) as char
    } else {
        c
    }
}

/// `c` in upper case where it is an ASCII letter, else `c`.
pub open spec fn ascii_upper(c: char) -> char {
    if 'a' <= c <= 'z' {
        (c as int - 32) as char
    } else {
        c
    }
}

/// The lower-case mappings of the characters of `s`, one behind the other.
pub open spec fn lowercase(s: Seq<char>) -> Seq<char>
    decreases s.len(),
{
    if s.len() == 0 {
        seq![]
    } else {
        lowercase(s.drop_last()) + char_lowercase(s.last())
    }
}

/// `char::to_lowercase`: the characters of the lower-case mapping of `c`, which is a
/// function of `c` alone; for an ASCII character it is the one character that ASCII
/// pairs with it.
#[verifier::external_body]
fn lower_char(c: char) -> (r: Vec<char>)
    ensures
        r@ == char_lowercase(c),
        c < '\u{80}' ==> r@ == seq![ascii_lower(c)],
{
    c.to_lowercase().collect()
}

/// `str::to_uppercase`: the upper-case equivalent of `s`, which is a function of `s`
/// alone; for ASCII text each letter is replaced by the one that ASCII pairs with it.
#[verifier::external_body]
pub(crate) fn to_uppercase(s: &str) -> (r: String)
    ensures
        r@ == uppercase(s@),
        vstd::utf8::is_ascii_chars(s@) ==> r@ == s@.map_values(|c: char| ascii_upper(c)),
{
    s.to_uppercase()
}

/// The characters of `s` in lower case.
pub fn lower_chars(s: &str) -> (r: Vec<char>)
    ensures
        r@ == lowercase(s@),
        vstd::utf8::is_ascii_chars(s@) ==> r@ == s@.map_values(|c: char| ascii_lower(c)),
{
    let chars = chars_of(s);
    let mut r: Vec<char> = Vec::new();
    let mut i: usize = 0;
    while i < chars.len()
        invariant
            chars@ == s@,
            i <= chars@.len(),
            r@ == lowercase(s@.take(i as int)),
            vstd::utf8::is_ascii_chars(s@) ==> r@ == s@.take(i as int).map_values(|c: char| ascii_lower(c)),
        decreases chars@.len() - i,
    {
        let mut mapped = lower_char(chars[i]);
        let ghost before = r@;
        let ghost more = mapped@;
        r.append(&mut mapped);
        proof {
            let t = s@.take(i + 1);
            assert(t.drop_last() =~= s@.take(i as int));
            assert(t.last() == s@[i as int]);
            if vstd::utf8::is_ascii_chars(s@) {
                assert(s@[i as int] < '\u{80}');
                assert(r@ =~= t.map_values(|c: char| ascii_lower(c)));
            }
        }
        i = i + 1;
    }
    assert(s@.take(s@.len() as int) =~= s@);
    r
}

/// ASCII pairs each small letter with the capital 32 code points before it, and leaves every
/// other character alone.
pub proof fn law_ascii_letters_are_paired(c: char)
    ensures
        'a' <= c <= 'z' ==> ascii_upper(c) as int == c as int - 32,
        'a' <= c <= 'z' ==> ascii_lower(ascii_upper(c)) == c,
        'A' <= c <= 'Z' ==> ascii_lower(c) as int == c as int + 32,
        'A' <= c <= 'Z' ==> ascii_upper(ascii_lower(c)) == c,
        !('a' <= c <= 'z') ==> ascii_upper(c) == c,
        !('A' <= c <= 'Z') ==> ascii_lower(c) == c,
{
}

/// The lower case of a text is that of its characters, one behind the other.
pub proof fn law_lower_case_of_parts(a: Seq<char>, c: char)
    ensures
        lowercase(a.push(c)) == lowercase(a) + char_lowercase(c),
        lowercase(Seq::empty()).len() == 0,
{
    assert(a.push(c).drop_last() =~= a);
}

}
