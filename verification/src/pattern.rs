//! The regular expressions of the client and what they match.
use regex::Regex;
use vstd::prelude::*;

use crate::casing;
use crate::number;
use crate::text;

verus! {

/// A search request: `/s` or `/search`, a space and the term.
pub const SEARCH_PATTERN: &'static str = r"^/s(earch)? (?P<search_term>.*)";

/// A request for a numbered entry.
pub const ENTRY_PATTERN: &'static str = r"^/(?P<entry_num>\d+)$";

/// A file offer whose name may be bare or, where it holds spaces, double-quoted.
pub const DCC_SEND_PATTERN: &'static str = r#"(?i).*DCC SEND (?:"(?P<qfilename>[^"]+)"|(?P<filename>\S+)) (?P<ip>\d+) (?P<port>\d+) (?P<size>\d+)"#;

/// A file offer with a bare name.
pub const DCC_BARE_PATTERN: &'static str = r".*DCC SEND (?P<filename>[^ ]+) (?P<ip>\d+) (?P<port>\d+) (?P<size>\d+)";

/// Whether `pattern` is one of the patterns above.
pub open spec fn known(pattern: Seq<char>) -> bool {
    ||| pattern == SEARCH_PATTERN@
    ||| pattern == ENTRY_PATTERN@
    ||| pattern == DCC_SEND_PATTERN@
    ||| pattern == DCC_BARE_PATTERN@
}

/// The texts of the groups of a match: the whole match, then each group in the order of
/// its opening bracket, `None` for one that took no part.
pub type Groups = Seq<Option<Seq<char>>>;

/// The groups of a match as texts.
pub open spec fn groups_view(groups: Option<Vec<Option<String>>>) -> Option<Groups> {
    match groups {
        Some(list) => Some(list@.map_values(|g: Option<String>| text::opt_view(g))),
        None => None,
    }
}

/// The term of the search request that `s` begins with: all that follows on its line.
pub open spec fn search_term(s: Seq<char>) -> Option<Seq<char>> {
    if "/s "@.is_prefix_of(s) {
        Some(text::until(s.skip(3), '\n'))
    } else if "/search "@.is_prefix_of(s) {
        Some(text::until(s.skip(8), '\n'))
    } else {
        None
    }
}

/// Whether `c` is one of the ten characters that start at code point `zero`.
pub open spec fn ten(c: char, zero: int) -> bool {
    zero <= c as int <= zero + 9
}

/// Whether `c` is a decimal digit, as Unicode classes it: in each script that has them the
/// ten digits follow one another.
#[verifier::opaque]
pub open spec fn is_decimal(c: char) -> bool {
    ten(c, 0x30) || ten(c, 0x660) || ten(c, 0x6f0) || ten(c, 0x7c0) || ten(c, 0x966)
        || ten(c, 0x9e6) || ten(c, 0xa66) || ten(c, 0xae6) || ten(c, 0xb66)
        || ten(c, 0xbe6) || ten(c, 0xc66) || ten(c, 0xce6) || ten(c, 0xd66)
        || ten(c, 0xde6) || ten(c, 0xe50) || ten(c, 0xed0) || ten(c, 0xf20)
        || ten(c, 0x1040) || ten(c, 0x1090) || ten(c, 0x17e0) || ten(c, 0x1810)
        || ten(c, 0x1946) || ten(c, 0x19d0) || ten(c, 0x1a80) || ten(c, 0x1a90)
        || ten(c, 0x1b50) || ten(c, 0x1bb0) || ten(c, 0x1c40) || ten(c, 0x1c50)
        || ten(c, 0xa620) || ten(c, 0xa8d0) || ten(c, 0xa900) || ten(c, 0xa9d0)
        || ten(c, 0xa9f0) || ten(c, 0xaa50) || ten(c, 0xabf0) || ten(c, 0xff10)
        || ten(c, 0x104a0) || ten(c, 0x10d30) || ten(c, 0x10d40) || ten(c, 0x11066)
        || ten(c, 0x110f0) || ten(c, 0x11136) || ten(c, 0x111d0) || ten(c, 0x112f0)
        || ten(c, 0x11450) || ten(c, 0x114d0) || ten(c, 0x11650) || ten(c, 0x116c0)
        || ten(c, 0x116d0) || ten(c, 0x116da) || ten(c, 0x11730) || ten(c, 0x118e0)
        || ten(c, 0x11950) || ten(c, 0x11bf0) || ten(c, 0x11c50) || ten(c, 0x11d50)
        || ten(c, 0x11da0) || ten(c, 0x11f50) || ten(c, 0x16130) || ten(c, 0x16a60)
        || ten(c, 0x16ac0) || ten(c, 0x16b50) || ten(c, 0x16d70) || ten(c, 0x1ccf0)
        || ten(c, 0x1d7ce) || ten(c, 0x1d7d8) || ten(c, 0x1d7e2) || ten(c, 0x1d7ec)
        || ten(c, 0x1d7f6) || ten(c, 0x1e140) || ten(c, 0x1e2f0) || ten(c, 0x1e4f0)
        || ten(c, 0x1e5f1) || ten(c, 0x1e950) || ten(c, 0x1fbf0)
}

pub proof fn lemma_is_decimal(c: char)
    ensures
        c < '\u{660}' ==> is_decimal(c) == number::is_digit(c),
{
    reveal(is_decimal);
}

/// Whether `s` holds decimal digits only.
pub open spec fn all_decimals(s: Seq<char>) -> bool {
    forall|i: int| 0 <= i < s.len() ==> is_decimal(#[trigger] s[i])
}

/// Whether `s` is a slash and one or more decimal digits.
pub open spec fn is_entry(s: Seq<char>) -> bool {
    s.len() > 1 && s[0] == '/' && all_decimals(s.drop_first())
}

/// The longest prefix of `s` that holds decimal digits only.
pub open spec fn leading_digits(s: Seq<char>) -> Seq<char>
    decreases s.len(),
{
    if s.len() == 0 || !is_decimal(s[0]) {
        seq![]
    } else {
        seq![s[0]] + leading_digits(s.drop_first())
    }
}

/// The address, port and size at the head of `s`: three numbers with one space between.
pub open spec fn endpoint(s: Seq<char>) -> Option<(Seq<char>, Seq<char>, Seq<char>)> {
    let ip = leading_digits(s);
    let behind_ip = s.skip(ip.len() as int);
    let port = leading_digits(behind_ip.skip(1));
    let behind_port = behind_ip.skip(1 + port.len() as int);
    let size = leading_digits(behind_port.skip(1));
    if ip.len() > 0 && behind_ip.len() > 0 && behind_ip[0] == ' ' && port.len() > 0
        && behind_port.len() > 0 && behind_port[0] == ' ' && size.len() > 0 {
        Some((ip, port, size))
    } else {
        None
    }
}

/// A file offer as a line states it.
pub struct OfferText {
    pub quoted: bool,
    pub filename: Seq<char>,
    pub ip: Seq<char>,
    pub port: Seq<char>,
    pub size: Seq<char>,
}

/// The offer with the name `filename` whose address, port and size stand at the head of
/// `s`, behind a space.
pub open spec fn offer_with(quoted: bool, filename: Seq<char>, s: Seq<char>) -> Option<OfferText> {
    if filename.len() > 0 && s.len() > 0 && s[0] == ' ' {
        match endpoint(s.skip(1)) {
            Some((ip, port, size)) => Some(OfferText { quoted, filename, ip, port, size }),
            None => None,
        }
    } else {
        None
    }
}

/// The offer at the head of `s` with a name between double quotes.
pub open spec fn quoted_offer(s: Seq<char>) -> Option<OfferText> {
    let name = text::until(s.skip(1), '"');
    if s.len() > 0 && s[0] == '"' && name.len() + 1 < s.len() {
        offer_with(true, name, s.skip(name.len() as int + 2))
    } else {
        None
    }
}

/// The offer at the head of `s` with a name without white space.
pub open spec fn bare_offer(s: Seq<char>) -> Option<OfferText> {
    let name = text::until_space(s);
    offer_with(false, name, s.skip(name.len() as int))
}

/// The offer at the head of `s` with a name that ends at the first space.
pub open spec fn spaceless_offer(s: Seq<char>) -> Option<OfferText> {
    let name = text::until(s, ' ');
    offer_with(false, name, s.skip(name.len() as int))
}

/// `c` in upper case where it is an ASCII letter or the long `s`, which folds to an ASCII
/// letter; else `c`.
pub open spec fn folded(c: char) -> char {
    if c == '\u{17f}' {
        'S'
    } else {
        casing::ascii_upper(c)
    }
}

/// Whether `DCC SEND ` stands in `s` at `p`, in any mixture of case.
pub open spec fn send_at(s: Seq<char>, p: int) -> bool {
    &&& 0 <= p
    &&& p + 9 <= s.len()
    &&& forall|i: int| 0 <= i < 9 ==> folded(#[trigger] s[p + i]) == "DCC SEND "@[i]
}

/// The offer that starts in `s` at `p`, in any case and with either form of name.
pub open spec fn offer_at(s: Seq<char>, p: int) -> Option<OfferText> {
    if send_at(s, p) {
        match quoted_offer(s.skip(p + 9)) {
            Some(offer) => Some(offer),
            None => bare_offer(s.skip(p + 9)),
        }
    } else {
        None
    }
}

/// The offer that starts in `s` at `p`, in upper case and with a bare name.
pub open spec fn strict_offer_at(s: Seq<char>, p: int) -> Option<OfferText> {
    if text::occurs_at(s, "DCC SEND "@, p) {
        spaceless_offer(s.skip(p + 9))
    } else {
        None
    }
}

/// The offers in `s`, by the position at which they start.
pub open spec fn offers(s: Seq<char>) -> spec_fn(int) -> Option<OfferText> {
    |p: int| offer_at(s, p)
}

/// The offers in `s` in upper case and with a bare name, by the position at which they
/// start.
pub open spec fn strict_offers(s: Seq<char>) -> spec_fn(int) -> Option<OfferText> {
    |p: int| strict_offer_at(s, p)
}

/// Whether a line break stands in `s` between `from` and `to`.
pub open spec fn broken(s: Seq<char>, from: int, to: int) -> bool {
    exists|i: int| from <= i < to && #[trigger] s[i] == '\n'
}

/// Whether of all positions in `s` at which `at` finds an offer, `p` is the last one on
/// the first line that has any.
pub open spec fn chosen(s: Seq<char>, at: spec_fn(int) -> Option<OfferText>, p: int) -> bool {
    &&& at(p) is Some
    &&& forall|q: int| #[trigger] at(q) is Some && q > p ==> broken(s, p, q)
    &&& forall|q: int| #[trigger] at(q) is Some && q < p ==> !broken(s, q, p)
}

/// Whether `found` is what a left-to-right search of `s` for an offer yields, where `at`
/// says which offer starts at a position.
pub open spec fn finds(
    s: Seq<char>,
    at: spec_fn(int) -> Option<OfferText>,
    found: Option<OfferText>,
) -> bool {
    match found {
        Some(offer) => exists|p: int| #[trigger] chosen(s, at, p) && at(p) == Some(offer),
        None => forall|p: int| #[trigger] at(p) is None,
    }
}

/// The offer that the groups of a match of `DCC_SEND_PATTERN` state.
pub open spec fn offer_of(groups: Option<Groups>) -> Option<OfferText> {
    match groups {
        Some(g) => Some(
            OfferText {
                quoted: g[1] is Some,
                filename: match g[1] {
                    Some(name) => name,
                    None => g[2]->0,
                },
                ip: g[3]->0,
                port: g[4]->0,
                size: g[5]->0,
            },
        ),
        None => None,
    }
}

/// The offer that the groups of a match of `DCC_BARE_PATTERN` state.
pub open spec fn bare_offer_of(groups: Option<Groups>) -> Option<OfferText> {
    match groups {
        Some(g) => Some(
            OfferText {
                quoted: false,
                filename: g[1]->0,
                ip: g[2]->0,
                port: g[3]->0,
                size: g[4]->0,
            },
        ),
        None => None,
    }
}

/// The line that offers a file: `marker` stands for `DCC SEND ` and `shown` for the name
/// as it is written, with its quotes if it has any.
pub open spec fn offer_line(
    head: Seq<char>,
    marker: Seq<char>,
    shown: Seq<char>,
    ip: Seq<char>,
    port: Seq<char>,
    size: Seq<char>,
    tail: Seq<char>,
) -> Seq<char> {
    head + marker + shown + endpoint_text(ip, port, size, tail)
}

/// A space, then the three numbers with a space between, then `tail`.
pub open spec fn endpoint_text(
    ip: Seq<char>,
    port: Seq<char>,
    size: Seq<char>,
    tail: Seq<char>,
) -> Seq<char> {
    seq![' '] + ip + seq![' '] + port + seq![' '] + size + tail
}

/// Whether `ip`, `port` and `size` are numbers that end where `tail` begins.
pub open spec fn numbers(
    ip: Seq<char>,
    port: Seq<char>,
    size: Seq<char>,
    tail: Seq<char>,
) -> bool {
    &&& ip.len() > 0 && all_decimals(ip)
    &&& port.len() > 0 && all_decimals(port)
    &&& size.len() > 0 && all_decimals(size)
    &&& tail.len() > 0 ==> !is_decimal(tail[0])
}

/// Whether no offer starts in `s` behind `p` on the same line.
pub open spec fn last_on_line(
    s: Seq<char>,
    at: spec_fn(int) -> Option<OfferText>,
    p: int,
) -> bool {
    forall|q: int| q > p && #[trigger] at(q) is Some ==> broken(s, p, q)
}

/// A file offered under a bare name is found with the name, address, port and size that
/// the line states, whatever stands before it on the line and behind it.
pub proof fn law_bare_offer_found(
    head: Seq<char>,
    marker: Seq<char>,
    name: Seq<char>,
    ip: Seq<char>,
    port: Seq<char>,
    size: Seq<char>,
    tail: Seq<char>,
    found: Option<OfferText>,
)
    requires
        !head.contains('\n'),
        marker.len() == 9 && send_at(marker, 0),
        name.len() > 0,
        forall|i: int| 0 <= i < name.len() ==> !text::is_space(#[trigger] name[i]),
        name[0] != '"' || !(name.drop_first() + tail).contains('"'),
        numbers(ip, port, size, tail),
        ({
            let line = offer_line(head, marker, name, ip, port, size, tail);
            &&& last_on_line(line, offers(line), head.len() as int)
            &&& finds(line, offers(line), found)
        }),
    ensures
        found == Some(OfferText { quoted: false, filename: name, ip, port, size }),
{
    let line = offer_line(head, marker, name, ip, port, size, tail);
    let p = head.len() as int;
    let rest = line.skip(p + 9);
    let behind = endpoint_text(ip, port, size, tail);
    assert(rest =~= name + behind);
    lemma_marker(head, marker, name + behind);
    assert(head + marker + (name + behind) =~= line);
    lemma_decimals(ip);
    lemma_decimals(port);
    lemma_decimals(size);
    assert(behind[0] == ' ');
    assert(rest[name.len() as int] == ' ');
    assert forall|i: int| 0 <= i < name.len() implies !text::is_space(rest[i]) by {
        assert(rest[i] == name[i]);
    }
    text::lemma_until_space_is(rest, name.len() as int);
    assert(rest.take(name.len() as int) =~= name);
    assert(rest.skip(name.len() as int) =~= behind);
    lemma_endpoint(ip, port, size, tail);
    assert(bare_offer(rest) == Some(OfferText { quoted: false, filename: name, ip, port, size }));
    lemma_not_quoted(name, ip, port, size, tail);
    lemma_found(line, offers(line), p, found);
}

/// A file offered under a bare name at the end of a line, with nothing behind it that holds
/// a space, is found with the name, address, port and size that the line states.
pub proof fn law_bare_offer_at_end_found(
    head: Seq<char>,
    marker: Seq<char>,
    name: Seq<char>,
    ip: Seq<char>,
    port: Seq<char>,
    size: Seq<char>,
    tail: Seq<char>,
    found: Option<OfferText>,
)
    requires
        !head.contains('\n'),
        marker.len() == 9 && send_at(marker, 0),
        name.len() > 0,
        forall|i: int| 0 <= i < name.len() ==> !text::is_space(#[trigger] name[i]),
        name[0] != '"' || !(name.drop_first() + tail).contains('"'),
        numbers(ip, port, size, tail),
        !tail.contains(' '),
        ({
            let line = offer_line(head, marker, name, ip, port, size, tail);
            finds(line, offers(line), found)
        }),
    ensures
        found == Some(OfferText { quoted: false, filename: name, ip, port, size }),
{
    let line = offer_line(head, marker, name, ip, port, size, tail);
    let p = head.len() as int;
    assert forall|q: int| q > p && #[trigger] offers(line)(q) is Some implies broken(line, p, q) by {
        lemma_no_marker_behind(head, marker, name, ip, port, size, tail, q);
    }
    law_bare_offer_found(head, marker, name, ip, port, size, tail, found);
}

proof fn lemma_no_marker_behind(
    head: Seq<char>,
    marker: Seq<char>,
    name: Seq<char>,
    ip: Seq<char>,
    port: Seq<char>,
    size: Seq<char>,
    tail: Seq<char>,
    q: int,
)
    requires
        marker.len() == 9 && send_at(marker, 0),
        forall|i: int| 0 <= i < name.len() ==> !text::is_space(#[trigger] name[i]),
        numbers(ip, port, size, tail),
        !tail.contains(' '),
        q > head.len(),
    ensures
        !send_at(offer_line(head, marker, name, ip, port, size, tail), q),
{
    let line = offer_line(head, marker, name, ip, port, size, tail);
    let p = head.len() as int;
    let b = p + 9 + name.len();
    let c = b + 1 + ip.len();
    let d = c + 1 + port.len();
    reveal_strlit("DCC SEND ");
    if send_at(line, q) {
        assert(folded(line[q + 0]) == 'D');
        assert(folded(line[q + 3]) == ' ');
        assert(folded(line[q + 4]) == 'S');
        assert(folded(line[q + 8]) == ' ');
        lemma_decimals(ip);
        lemma_decimals(port);
        lemma_decimals(size);
        assert(folded(marker[0int + 5]) == 'E');
        assert forall|i: int| p + 9 <= i < line.len() && #[trigger] line[i] == ' ' implies i == b
            || i == c || i == d by {
            if i < b {
                assert(line[i] == name[i - p - 9]);
            } else if i > d {
                let end = d + 1 + size.len();
                if i < end {
                    assert(line[i] == size[i - d - 1]);
                } else {
                    assert(line[i] == tail[i - end]);
                }
            } else if b < i < c {
                assert(line[i] == ip[i - b - 1]);
            } else if c < i < d {
                assert(line[i] == port[i - c - 1]);
            }
        }
        assert(line[q + 8] == ' ');
        assert(line[q + 3] == ' ');
        if q + 3 >= p + 9 {
            lemma_is_decimal('S');
            lemma_is_decimal('s');
            lemma_is_decimal('\u{17f}');
            if q + 3 == b {
                assert(line[q + 4] == ip[0]);
                assert(is_decimal(ip[0]));
            } else {
                assert(q + 3 == c);
                assert(line[q + 4] == port[0]);
                assert(is_decimal(port[0]));
            }
        } else {
            assert(line[q + 3] == marker[q + 3 - p]);
            assert forall|i: int| 0 <= i < 9 && #[trigger] marker[i] == ' ' implies i == 3 || i
                == 8 by {
                assert(folded(marker[0 + i]) == "DCC SEND "@[i]);
            }
            assert(q == p + 5);
            assert(line[q + 0] == marker[0int + 5]);
        }
    }
}

/// A file offered under a name between double quotes is found with that name, which may
/// hold spaces, and with the address, port and size that the line states.
pub proof fn law_quoted_offer_found(
    head: Seq<char>,
    marker: Seq<char>,
    name: Seq<char>,
    ip: Seq<char>,
    port: Seq<char>,
    size: Seq<char>,
    tail: Seq<char>,
    found: Option<OfferText>,
)
    requires
        !head.contains('\n'),
        marker.len() == 9 && send_at(marker, 0),
        name.len() > 0,
        !name.contains('"'),
        numbers(ip, port, size, tail),
        ({
            let shown = seq!['"'] + name + seq!['"'];
            let line = offer_line(head, marker, shown, ip, port, size, tail);
            &&& last_on_line(line, offers(line), head.len() as int)
            &&& finds(line, offers(line), found)
        }),
    ensures
        found == Some(OfferText { quoted: true, filename: name, ip, port, size }),
{
    let shown = seq!['"'] + name + seq!['"'];
    let line = offer_line(head, marker, shown, ip, port, size, tail);
    let p = head.len() as int;
    let rest = line.skip(p + 9);
    let behind = endpoint_text(ip, port, size, tail);
    assert(rest =~= shown + behind);
    lemma_marker(head, marker, shown + behind);
    assert(head + marker + (shown + behind) =~= line);
    let after = rest.skip(1);
    let n = name.len() as int;
    assert forall|i: int| 0 <= i < n implies after[i] != '"' by {
        assert(after[i] == name[i]);
    }
    assert(after[n] == '"');
    text::lemma_until_is(after, '"', n);
    assert(after.take(n) =~= name);
    assert(rest.skip(n + 2) =~= behind);
    lemma_endpoint(ip, port, size, tail);
    assert(quoted_offer(rest) == Some(OfferText { quoted: true, filename: name, ip, port, size }));
    lemma_found(line, offers(line), p, found);
}

/// A file offered in upper case under a name without a space is found by the strict search
/// with the name, address, port and size that the line states.
pub proof fn law_strict_offer_found(
    head: Seq<char>,
    name: Seq<char>,
    ip: Seq<char>,
    port: Seq<char>,
    size: Seq<char>,
    tail: Seq<char>,
    found: Option<OfferText>,
)
    requires
        !head.contains('\n'),
        name.len() > 0,
        !name.contains(' '),
        numbers(ip, port, size, tail),
        ({
            let line = offer_line(head, "DCC SEND "@, name, ip, port, size, tail);
            &&& last_on_line(line, strict_offers(line), head.len() as int)
            &&& finds(line, strict_offers(line), found)
        }),
    ensures
        found == Some(OfferText { quoted: false, filename: name, ip, port, size }),
{
    let marker = "DCC SEND "@;
    reveal_strlit("DCC SEND ");
    let line = offer_line(head, marker, name, ip, port, size, tail);
    let p = head.len() as int;
    let rest = line.skip(p + 9);
    let behind = endpoint_text(ip, port, size, tail);
    assert(rest =~= name + behind);
    assert(line.subrange(p, p + 9) =~= marker);
    assert forall|i: int| 0 <= i < name.len() implies rest[i] != ' ' by {
        assert(rest[i] == name[i]);
    }
    assert(rest[name.len() as int] == ' ');
    text::lemma_until_is(rest, ' ', name.len() as int);
    assert(rest.take(name.len() as int) =~= name);
    assert(rest.skip(name.len() as int) =~= behind);
    lemma_endpoint(ip, port, size, tail);
    lemma_found(line, strict_offers(line), p, found);
}

/// A line without the words `DCC SEND`, in any case, offers nothing.
pub proof fn law_no_offer_without_marker(line: Seq<char>, found: Option<OfferText>)
    requires
        forall|p: int| !send_at(line, p),
        finds(line, offers(line), found),
    ensures
        found is None,
{
    if found is Some {
        let p = choose|p: int| #[trigger] chosen(line, offers(line), p) && offers(line)(p) == found;
        assert(offer_at(line, p) is Some);
    }
}

proof fn lemma_found(
    s: Seq<char>,
    at: spec_fn(int) -> Option<OfferText>,
    p: int,
    found: Option<OfferText>,
)
    requires
        0 <= p <= s.len(),
        at(p) is Some,
        !s.take(p).contains('\n'),
        last_on_line(s, at, p),
        forall|q: int| #[trigger] at(q) is Some ==> q >= 0,
        finds(s, at, found),
    ensures
        found == at(p),
{
    if found is None {
        assert(at(p) is None);
    } else {
        let c = choose|c: int| #[trigger] chosen(s, at, c) && at(c) == found;
        if c < p {
            assert(at(p) is Some && p > c);
            let i = choose|i: int| c <= i < p && #[trigger] s[i] == '\n';
            assert(s.take(p)[i] == '\n');
        } else if c > p {
            assert(at(c) is Some);
            assert(broken(s, p, c));
            assert(at(p) is Some && p < c);
        }
    }
}

proof fn lemma_not_quoted(
    name: Seq<char>,
    ip: Seq<char>,
    port: Seq<char>,
    size: Seq<char>,
    tail: Seq<char>,
)
    requires
        name.len() > 0,
        name[0] != '"' || !(name.drop_first() + tail).contains('"'),
        numbers(ip, port, size, tail),
    ensures
        quoted_offer(name + endpoint_text(ip, port, size, tail)) is None,
{
    let behind = endpoint_text(ip, port, size, tail);
    let rest = name + behind;
    if rest[0] == '"' {
        let more = name.drop_first() + tail;
        let end = rest.len() - tail.len();
        assert forall|i: int| 1 <= i < rest.len() implies rest[i] != '"' by {
            if i < name.len() {
                assert(rest[i] == more[i - 1]);
            } else if i < end {
                lemma_endpoint_text(ip, port, size, tail, i - name.len());
            } else {
                assert(rest[i] == tail[i - end]);
                assert(rest[i] == more[name.len() - 1 + i - end]);
            }
        }
        let after = rest.skip(1);
        text::lemma_until_is(after, '"', after.len() as int);
        assert(after.take(after.len() as int) =~= after);
    }
}

proof fn lemma_marker(head: Seq<char>, marker: Seq<char>, rest: Seq<char>)
    requires
        !head.contains('\n'),
        marker.len() == 9 && send_at(marker, 0),
    ensures
        send_at(head + marker + rest, head.len() as int),
        !(head + marker + rest).take(head.len() as int).contains('\n'),
{
    let s = head + marker + rest;
    let p = head.len() as int;
    assert(s.take(p) =~= head);
    assert forall|i: int| 0 <= i < 9 implies folded(#[trigger] s[p + i]) == "DCC SEND "@[i] by {
        assert(s[p + i] == marker[0 + i]);
    }
}

proof fn lemma_decimals(s: Seq<char>)
    requires
        all_decimals(s),
    ensures
        forall|i: int| 0 <= i < s.len() ==> s[i] != ' ' && s[i] != '"',
{
    lemma_is_decimal(' ');
    lemma_is_decimal('"');
}

proof fn lemma_endpoint_text(
    ip: Seq<char>,
    port: Seq<char>,
    size: Seq<char>,
    tail: Seq<char>,
    j: int,
)
    requires
        all_decimals(ip),
        all_decimals(port),
        all_decimals(size),
        0 <= j < 3 + ip.len() + port.len() + size.len(),
    ensures
        endpoint_text(ip, port, size, tail)[j] != '"',
{
    lemma_decimals(ip);
    lemma_decimals(port);
    lemma_decimals(size);
}

proof fn lemma_leading_digits_is(s: Seq<char>, n: int)
    requires
        0 <= n <= s.len(),
        forall|i: int| 0 <= i < n ==> is_decimal(#[trigger] s[i]),
        n < s.len() ==> !is_decimal(s[n]),
    ensures
        leading_digits(s) == s.take(n),
    decreases n,
{
    if n == 0 {
        assert(s.take(0) =~= seq![]);
    } else {
        assert(is_decimal(s[0]));
        let t = s.drop_first();
        assert forall|i: int| 0 <= i < n - 1 implies is_decimal(#[trigger] t[i]) by {
            assert(t[i] == s[i + 1]);
        }
        lemma_leading_digits_is(t, n - 1);
        assert(s.take(n) =~= seq![s[0]] + t.take(n - 1));
    }
}

proof fn lemma_endpoint(ip: Seq<char>, port: Seq<char>, size: Seq<char>, tail: Seq<char>)
    requires
        numbers(ip, port, size, tail),
    ensures
        ({
            let s = endpoint_text(ip, port, size, tail);
            &&& s.len() > 0
            &&& s[0] == ' '
            &&& endpoint(s.skip(1)) == Some((ip, port, size))
        }),
{
    lemma_is_decimal(' ');
    let s = endpoint_text(ip, port, size, tail).skip(1);
    lemma_number_head(ip, seq![' '] + port + seq![' '] + size + tail, s);
    let t = s.skip(ip.len() as int).skip(1);
    lemma_number_head(port, seq![' '] + size + tail, t);
    assert(s.skip(ip.len() as int).skip(1 + port.len() as int) =~= t.skip(port.len() as int));
    let u = t.skip(port.len() as int).skip(1);
    lemma_number_head(size, tail, u);
}

proof fn lemma_number_head(digits: Seq<char>, rest: Seq<char>, s: Seq<char>)
    requires
        all_decimals(digits),
        rest.len() > 0 ==> !is_decimal(rest[0]),
        s =~= digits + rest,
    ensures
        leading_digits(s) == digits,
        s.skip(digits.len() as int) == rest,
{
    let n = digits.len() as int;
    assert forall|i: int| 0 <= i < n implies is_decimal(#[trigger] s[i]) by {
        assert(s[i] == digits[i]);
    }
    lemma_leading_digits_is(s, n);
    assert(s.take(n) =~= digits);
    assert(s.skip(n) =~= rest);
}

/// `Regex::new` on `pattern`, which compiles, then `Regex::captures` on `haystack`: the
/// leftmost match, with preference for the earlier alternative and the longer
/// repetition. For each pattern of this module the contract says what the syntax of
/// regular expressions makes of it, for the groups that are used. The class
/// `\d` is the decimal digits of all scripts, `\s` the white space of Unicode, and the
/// flag `i` compares by simple case folding.
#[verifier::external_body]
pub(crate) fn captures(pattern: &str, haystack: &str) -> (groups: Option<Vec<Option<String>>>)
    requires
        known(pattern@),
    ensures
        pattern@ == SEARCH_PATTERN@ ==> match groups {
            Some(list) => list@.len() == 3 && list@[2] is Some && search_term(haystack@) == Some(
                list@[2]->0@,
            ),
            None => search_term(haystack@) is None,
        },
        pattern@ == ENTRY_PATTERN@ ==> match groups {
            Some(list) => {
                &&& is_entry(haystack@)
                &&& list@.len() == 2
                &&& list@[1] matches Some(digits)
                &&& digits@ == haystack@.drop_first()
            },
            None => !is_entry(haystack@),
        },
        pattern@ == DCC_SEND_PATTERN@ ==> match groups {
            Some(list) => {
                &&& list@.len() == 6
                &&& list@[1] is Some <==> list@[2] is None
                &&& list@[3] is Some
                &&& list@[4] is Some
                &&& list@[5] is Some
            },
            None => true,
        },
        pattern@ == DCC_SEND_PATTERN@ ==> finds(
            haystack@,
            offers(haystack@),
            offer_of(groups_view(groups)),
        ),
        pattern@ == DCC_BARE_PATTERN@ ==> match groups {
            Some(list) => {
                &&& list@.len() == 5
                &&& forall|i: int| 1 <= i < 5 ==> #[trigger] list@[i] is Some
            },
            None => true,
        },
        pattern@ == DCC_BARE_PATTERN@ ==> finds(
            haystack@,
            strict_offers(haystack@),
            bare_offer_of(groups_view(groups)),
        ),
{
    let expression = Regex::new(pattern).unwrap();
    expression.captures(haystack).map(
        |found|
            found.iter().map(|group| group.map(|part| part.as_str().to_string())).collect(),
    )
}

}
