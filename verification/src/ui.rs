//! Lines as they are printed to a plain terminal.
use vstd::prelude::*;

use crate::clock::TimeOfDay;
use crate::text;
use crate::text::{find, glue3};

verus! {

/// The time in brackets that stands before a line.
pub fn timestamp(time: &TimeOfDay) -> (s: String)
    ensures
        s@ == "["@ + time.text() + "] "@,
{
    glue3("[", time.shown().as_str(), "] ")
}

/// Whether `prefix` and `message` are the two parts of `line`, which end and begin before
/// the first ` :`; a line without it is all message.
pub open spec fn parted(line: Seq<char>, prefix: Seq<char>, message: Seq<char>) -> bool {
    &&& prefix + message == line
    &&& if text::occurs(line, " :"@) {
        &&& text::occurs_at(line, " :"@, prefix.len() as int)
        &&& forall|i: int| 0 <= i < prefix.len() ==> !text::occurs_at(line, " :"@, i)
    } else {
        prefix.len() == 0
    }
}

/// A line is parted before its first ` :`, and nothing of it is lost.
pub proof fn law_lines_are_parted(
    head: Seq<char>,
    tail: Seq<char>,
    prefix: Seq<char>,
    message: Seq<char>,
    line: Seq<char>,
    none: Seq<char>,
    all: Seq<char>,
)
    requires
        !text::occurs(head + " "@, " :"@),
        parted(head + " :"@ + tail, prefix, message),
        !text::occurs(line, " :"@),
        parted(line, none, all),
    ensures
        prefix == head,
        message == " :"@ + tail,
        none.len() == 0,
        all == line,
{
    reveal_strlit(" :");
    reveal_strlit(" ");
    let whole = head + " :"@ + tail;
    let n = head.len() as int;
    text::law_occurs(head, " :"@, tail, seq![]);
    let p = prefix.len() as int;
    if p > n {
        assert(!text::occurs_at(whole, " :"@, n));
    } else if p < n {
        let spaced = head + " "@;
        assert(spaced.subrange(p, p + 2) =~= whole.subrange(p, p + 2));
        assert(text::occurs_at(spaced, " :"@, p));
    }
    assert(prefix =~= (prefix + message).take(p));
    assert(message =~= (prefix + message).skip(p));
    assert(whole.take(n) =~= head);
    assert(whole.skip(n) =~= " :"@ + tail);
    assert(all =~= none + all);
}

/// The prefix and the message of a line.
pub fn split_line<'a>(line: &'a str) -> (parts: (&'a str, &'a str))
    ensures
        parted(line@, parts.0@, parts.1@),
{
    let n: usize = line.unicode_len();
    let at: usize = match find(line, " :") {
        Some(i) => i,
        None => 0,
    };
    let prefix = line.substring_char(0, at);
    let message = line.substring_char(at, n);
    assert(prefix@ + message@ =~= line@);
    (prefix, message)
}

}
