//! File transfers: how an offer is read, where a file may be put and how its bytes come in.
use std::path::Path;

use vstd::prelude::*;

use crate::casing;
use crate::casing::to_uppercase;
use crate::error::AircError;
use crate::number;
use crate::number::{parse_unsigned, to_decimal};
use crate::pattern;
use crate::pattern::captures;
use crate::percent;
use crate::percent::percent_truncated;
use crate::text;
use crate::text::{
    before_char, byte_len, char_in, chars_of, contains, glue2, glue3, glue4, glue5, same, string_of,
    strip_suffix, trim,
};
use crate::tui::UiEvent;

verus! {

/// The most bytes that are read at once.
pub const DCC_CHUNK_SIZE: usize = 65536;

/// The size of the largest file that is accepted, ten gibibytes.
pub const MAX_FILE_SIZE_BYTES: u64 = 10737418240;

/// The most bytes that a file name may have.
pub const MAX_FILENAME_LENGTH: usize = 255;

/// Milliseconds after which progress is reported though the percentage is the same.
pub const PROGRESS_INTERVAL_MS: u64 = 200;

pub const SEARCHBOT_RESULTS_PREFIX: &'static str = "SearchBot_results";

pub const ZIP_EXTENSION: &'static str = ".zip";

/// Characters that a file name must not hold.
pub const DANGEROUS_CHARS: &'static str = "<>:\"|?*";

/// A file that another client offers.
#[derive(Debug, Clone)]
pub struct DccOffer {
    pub quoted: bool,
    pub filename: String,
    pub ip: String,
    pub port: String,
    pub size: String,
}

impl DccOffer {
    /// The offer as the line states it.
    pub open spec fn text(self) -> pattern::OfferText {
        pattern::OfferText {
            quoted: self.quoted,
            filename: self.filename@,
            ip: self.ip@,
            port: self.port@,
            size: self.size@,
        }
    }
}

pub open spec fn offer_text(offer: Option<DccOffer>) -> Option<pattern::OfferText> {
    match offer {
        Some(o) => Some(o.text()),
        None => None,
    }
}

/// The file that `line` offers, if it offers one: of several offers the last one on the
/// first line that has any.
pub fn parse_dcc_offer(line: &str) -> (offer: Option<DccOffer>)
    ensures
        pattern::finds(line@, pattern::offers(line@), offer_text(offer)),
{
    let groups = captures(pattern::DCC_SEND_PATTERN, line);
    match groups {
        Some(list) => {
            let offer = DccOffer {
                quoted: list[1].is_some(),
                filename: match &list[1] {
                    Some(name) => name.clone(),
                    None => some_text(&list[2]),
                },
                ip: some_text(&list[3]),
                port: some_text(&list[4]),
                size: some_text(&list[5]),
            };
            Some(offer)
        },
        None => None,
    }
}

/// A file that is offered under a bare name is read with the name, address, port and size
/// that the line states, whatever stands before the offer and whatever its words' case; a
/// line without the words offers nothing.
pub proof fn law_offers_are_read(
    head: Seq<char>,
    marker: Seq<char>,
    name: Seq<char>,
    ip: Seq<char>,
    port: Seq<char>,
    size: Seq<char>,
    tail: Seq<char>,
    offer: Option<DccOffer>,
)
    requires
        !head.contains('\n'),
        marker.len() == 9,
        forall|i: int|
            0 <= i < 9 ==> (#[trigger] marker[i]) == seq![
                'D',
                'C',
                'C',
                ' ',
                'S',
                'E',
                'N',
                'D',
                ' ',
            ][i] || marker[i] == seq!['d', 'c', 'c', ' ', 's', 'e', 'n', 'd', ' '][i],
        name.len() > 0,
        name[0] != '"',
        forall|i: int| 0 <= i < name.len() ==> !text::is_space(#[trigger] name[i]),
        ip.len() > 0 && (forall|i: int| 0 <= i < ip.len() ==> '0' <= #[trigger] ip[i] <= '9'),
        port.len() > 0 && (forall|i: int| 0 <= i < port.len() ==> '0' <= #[trigger] port[i] <= '9'),
        size.len() > 0 && (forall|i: int| 0 <= i < size.len() ==> '0' <= #[trigger] size[i] <= '9'),
        tail.len() > 0 ==> tail[0] < '\u{660}' && !('0' <= tail[0] <= '9'),
        !tail.contains(' '),
        ({
            let line = head + marker + name + seq![' '] + ip + seq![' '] + port + seq![' '] + size
                + tail;
            pattern::finds(line, pattern::offers(line), offer_text(offer))
        }),
    ensures
        offer matches Some(o) && !o.quoted && o.filename@ == name && o.ip@ == ip && o.port@ == port
            && o.size@ == size,
{
    let line = head + marker + name + seq![' '] + ip + seq![' '] + port + seq![' '] + size + tail;
    assert(line =~= pattern::offer_line(head, marker, name, ip, port, size, tail));
    lemma_marker_in_any_case(marker);
    lemma_offer_numbers(ip, port, size, tail);
    pattern::law_bare_offer_at_end_found(
        head,
        marker,
        name,
        ip,
        port,
        size,
        tail,
        offer_text(offer),
    );
}

/// A file that is offered under a name between double quotes is read with that name, spaces
/// and all.
pub proof fn law_quoted_offers_are_read(
    head: Seq<char>,
    marker: Seq<char>,
    name: Seq<char>,
    ip: Seq<char>,
    port: Seq<char>,
    size: Seq<char>,
    tail: Seq<char>,
    offer: Option<DccOffer>,
)
    requires
        !head.contains('\n'),
        marker.len() == 9,
        forall|i: int|
            0 <= i < 9 ==> (#[trigger] marker[i]) == seq![
                'D',
                'C',
                'C',
                ' ',
                'S',
                'E',
                'N',
                'D',
                ' ',
            ][i] || marker[i] == seq!['d', 'c', 'c', ' ', 's', 'e', 'n', 'd', ' '][i],
        name.len() > 0,
        !name.contains('"'),
        ip.len() > 0 && (forall|i: int| 0 <= i < ip.len() ==> '0' <= #[trigger] ip[i] <= '9'),
        port.len() > 0 && (forall|i: int| 0 <= i < port.len() ==> '0' <= #[trigger] port[i] <= '9'),
        size.len() > 0 && (forall|i: int| 0 <= i < size.len() ==> '0' <= #[trigger] size[i] <= '9'),
        tail.len() > 0 ==> tail[0] < '\u{660}' && !('0' <= tail[0] <= '9'),
        ({
            let line = head + marker + seq!['"'] + name + seq!['"'] + seq![' '] + ip + seq![' ']
                + port + seq![' '] + size + tail;
            &&& forall|q: int| q > head.len() ==> !pattern::send_at(line, q)
            &&& pattern::finds(line, pattern::offers(line), offer_text(offer))
        }),
    ensures
        offer matches Some(o) && o.quoted && o.filename@ == name && o.ip@ == ip && o.port@ == port
            && o.size@ == size,
{
    let shown = seq!['"'] + name + seq!['"'];
    let line = head + marker + seq!['"'] + name + seq!['"'] + seq![' '] + ip + seq![' '] + port
        + seq![' '] + size + tail;
    assert(line =~= pattern::offer_line(head, marker, shown, ip, port, size, tail));
    lemma_marker_in_any_case(marker);
    lemma_offer_numbers(ip, port, size, tail);
    let at = pattern::offers(line);
    assert forall|q: int| q > head.len() && #[trigger] at(q) is Some implies pattern::broken(
        line,
        head.len() as int,
        q,
    ) by {
        assert(pattern::send_at(line, q));
    }
    pattern::law_quoted_offer_found(
        head,
        marker,
        name,
        ip,
        port,
        size,
        tail,
        offer_text(offer),
    );
}

/// A line that nowhere holds the words of an offer, in any case, offers nothing.
pub proof fn law_nothing_is_offered_without_the_words(line: Seq<char>, offer: Option<DccOffer>)
    requires
        forall|p: int| !pattern::send_at(line, p),
        pattern::finds(line, pattern::offers(line), offer_text(offer)),
    ensures
        offer is None,
{
    pattern::law_no_offer_without_marker(line, offer_text(offer));
}

proof fn lemma_marker_in_any_case(marker: Seq<char>)
    requires
        marker.len() == 9,
        forall|i: int|
            0 <= i < 9 ==> (#[trigger] marker[i]) == seq![
                'D',
                'C',
                'C',
                ' ',
                'S',
                'E',
                'N',
                'D',
                ' ',
            ][i] || marker[i] == seq!['d', 'c', 'c', ' ', 's', 'e', 'n', 'd', ' '][i],
    ensures
        pattern::send_at(marker, 0),
{
    reveal_strlit("DCC SEND ");
    let upper = seq!['D', 'C', 'C', ' ', 'S', 'E', 'N', 'D', ' '];
    let lower = seq!['d', 'c', 'c', ' ', 's', 'e', 'n', 'd', ' '];
    assert("DCC SEND "@ =~= upper);
    assert forall|i: int| 0 <= i < 9 implies pattern::folded(#[trigger] marker[0 + i])
        == "DCC SEND "@[i] by {
        assert(marker[i] == upper[i] || marker[i] == lower[i]);
        assert(i == 0 || i == 1 || i == 2 || i == 3 || i == 4 || i == 5 || i == 6 || i == 7 || i
            == 8);
    }
}

proof fn lemma_offer_numbers(ip: Seq<char>, port: Seq<char>, size: Seq<char>, tail: Seq<char>)
    requires
        ip.len() > 0 && (forall|i: int| 0 <= i < ip.len() ==> '0' <= #[trigger] ip[i] <= '9'),
        port.len() > 0 && (forall|i: int| 0 <= i < port.len() ==> '0' <= #[trigger] port[i] <= '9'),
        size.len() > 0 && (forall|i: int| 0 <= i < size.len() ==> '0' <= #[trigger] size[i] <= '9'),
        tail.len() > 0 ==> tail[0] < '\u{660}' && !('0' <= tail[0] <= '9'),
    ensures
        pattern::numbers(ip, port, size, tail),
{
    assert forall|c: char| c < '\u{660}' implies pattern::is_decimal(c) == number::is_digit(c) by {
        pattern::lemma_is_decimal(c);
    }
}

/// The text of a group that took part in the match.
pub(crate) fn some_text(group: &Option<String>) -> (s: String)
    requires
        group is Some,
    ensures
        s@ == group->0@,
{
    match group {
        Some(part) => part.clone(),
        None => String::new(),
    }
}

/// The dotted form of the address `n`.
pub open spec fn quad_text(n: nat) -> Seq<char> {
    number::decimal(n / 16777216 % 256) + "."@ + number::decimal(n / 65536 % 256) + "."@
        + number::decimal(n / 256 % 256) + "."@ + number::decimal(n % 256)
}

/// The dotted form of the address `n`.
pub fn dotted_quad(n: u32) -> (s: String)
    ensures
        s@ == quad_text(n as nat),
{
    let mut s = glue5(
        to_decimal((n / 16777216 % 256) as u64).as_str(),
        ".",
        to_decimal((n / 65536 % 256) as u64).as_str(),
        ".",
        to_decimal((n / 256 % 256) as u64).as_str(),
    );
    s.append(".");
    s.append(to_decimal((n % 256) as u64).as_str());
    s
}

/// The dotted form of an address that is given as one number.
pub fn decode_dcc_ip_address(ip_str: &str) -> (r: Result<String, AircError>)
    ensures
        match number::parsed(ip_str@, u32::MAX as nat) {
            Ok(n) => r matches Ok(s) && s@ == quad_text(n),
            Err(e) => r matches Err(AircError::Parse(why)) && why == e,
        },
{
    match parse_unsigned(ip_str, u32::MAX as u64) {
        Ok(n) => {
            proof {
                number::law_parsed_value(ip_str@, u32::MAX as nat);
            }
            Ok(dotted_quad(n as u32))
        },
        Err(e) => Err(AircError::from(e)),
    }
}

/// The dotted form of an address names its four octets in decimal, the most significant one
/// first.
pub proof fn law_dotted_form_names_the_octets(a: nat, b: nat, c: nat, d: nat)
    requires
        a < 256,
        b < 256,
        c < 256,
        d < 256,
    ensures
        quad_text(a * 16777216 + b * 65536 + c * 256 + d) == number::decimal(a) + "."@
            + number::decimal(b) + "."@ + number::decimal(c) + "."@ + number::decimal(d),
{
    let n = a * 16777216 + b * 65536 + c * 256 + d;
    assert(n / 256 == a * 65536 + b * 256 + c);
    assert(n / 65536 == a * 256 + b);
    assert(n / 16777216 == a);
    assert(n % 256 == d);
    assert(n / 256 % 256 == c);
    assert(n / 65536 % 256 == b);
    assert(n / 16777216 % 256 == a);
}

/// An address that an offer gives as one number is resolved to the octets of that number;
/// one that holds anything but digits stands for itself.
pub proof fn law_addresses_are_resolved(a: nat, b: nat, c: nat, d: nat, ip: Seq<char>)
    requires
        a < 256,
        b < 256,
        c < 256,
        d < 256,
    ensures
        resolved_ip(number::decimal(a * 16777216 + b * 65536 + c * 256 + d)) == number::decimal(a)
            + "."@ + number::decimal(b) + "."@ + number::decimal(c) + "."@ + number::decimal(d),
        (exists|i: int| 1 <= i < ip.len() && !('0' <= #[trigger] ip[i] <= '9')) ==> resolved_ip(ip)
            == ip,
        ip.len() > 0 && !('0' <= ip[0] <= '9') && ip[0] != '+' ==> resolved_ip(ip) == ip,
{
    let n = a * 16777216 + b * 65536 + c * 256 + d;
    law_dotted_form_names_the_octets(a, b, c, d);
    number::law_decimal_roundtrip(n, u32::MAX as nat);
    number::law_parsed_digits(ip, u32::MAX as nat);
}

/// Different addresses have different dotted forms.
pub proof fn law_dotted_forms_differ(a: nat, b: nat)
    requires
        a < 4294967296,
        b < 4294967296,
        quad_text(a) == quad_text(b),
    ensures
        a == b,
{
    let (a1, a2, a3, a4) = (a / 16777216 % 256, a / 65536 % 256, a / 256 % 256, a % 256);
    let (b1, b2, b3, b4) = (b / 16777216 % 256, b / 65536 % 256, b / 256 % 256, b % 256);
    let (da, db) = (number::decimal(a4), number::decimal(b4));
    let (ra3, rb3) = (number::decimal(a3) + "."@ + da, number::decimal(b3) + "."@ + db);
    let (ra2, rb2) = (number::decimal(a2) + "."@ + ra3, number::decimal(b2) + "."@ + rb3);
    lemma_regroup(number::decimal(a1), number::decimal(a2), number::decimal(a3), da);
    lemma_regroup(number::decimal(b1), number::decimal(b2), number::decimal(b3), db);
    lemma_first_octet(a1, ra2, b1, rb2);
    lemma_first_octet(a2, ra3, b2, rb3);
    lemma_first_octet(a3, da, b3, db);
    number::lemma_decimal(a4);
    number::lemma_decimal(b4);
    lemma_from_octets(a);
    lemma_from_octets(b);
}

proof fn lemma_regroup(a: Seq<char>, b: Seq<char>, c: Seq<char>, d: Seq<char>)
    ensures
        a + "."@ + b + "."@ + c + "."@ + d == a + "."@ + (b + "."@ + (c + "."@ + d)),
{
    assert(a + "."@ + b + "."@ + c + "."@ + d =~= a + "."@ + (b + "."@ + (c + "."@ + d)));
}

proof fn lemma_from_octets(n: nat)
    requires
        n < 4294967296,
    ensures
        n == n / 16777216 % 256 * 16777216 + n / 65536 % 256 * 65536 + n / 256 % 256 * 256 + n
            % 256,
{
    let q1 = n / 256;
    let q2 = q1 / 256;
    let q3 = q2 / 256;
    assert(n / 65536 == q2);
    assert(n / 16777216 == q3);
    assert(n == 256 * q1 + n % 256);
    assert(q1 == 256 * q2 + q1 % 256);
    assert(q2 == 256 * q3 + q2 % 256);
    assert(q3 < 256);
}

proof fn lemma_first_octet(a: nat, rest_a: Seq<char>, b: nat, rest_b: Seq<char>)
    requires
        number::decimal(a) + "."@ + rest_a == number::decimal(b) + "."@ + rest_b,
    ensures
        a == b,
        rest_a == rest_b,
{
    reveal_strlit(".");
    number::lemma_decimal(a);
    number::lemma_decimal(b);
    let (da, db) = (number::decimal(a), number::decimal(b));
    let s = da + "."@ + rest_a;
    let t = db + "."@ + rest_b;
    assert forall|i: int| 0 <= i < da.len() implies s[i] != '.' by {
        assert(number::is_digit(da[i]));
    }
    assert forall|i: int| 0 <= i < db.len() implies t[i] != '.' by {
        assert(number::is_digit(db[i]));
    }
    assert(s[da.len() as int] == '.');
    assert(t[db.len() as int] == '.');
    text::lemma_until_is(s, '.', da.len() as int);
    text::lemma_until_is(t, '.', db.len() as int);
    assert(s.take(da.len() as int) =~= da);
    assert(t.take(db.len() as int) =~= db);
    assert(s.skip(da.len() as int + 1) =~= rest_a);
    assert(t.skip(db.len() as int + 1) =~= rest_b);
}

/// Whether `s` holds one of the characters of `set`.
pub open spec fn holds_any(s: Seq<char>, set: Seq<char>) -> bool {
    exists|i: int| 0 <= i < s.len() && set.contains(#[trigger] s[i])
}

fn holds_any_of(s: &str, set: &str) -> (yes: bool)
    ensures
        yes == holds_any(s@, set@),
{
    let chars = chars_of(s);
    let members = chars_of(set);
    let mut i: usize = 0;
    while i < chars.len()
        invariant
            chars@ == s@,
            members@ == set@,
            i <= chars@.len(),
            forall|j: int| 0 <= j < i ==> !set@.contains(#[trigger] s@[j]),
        decreases chars@.len() - i,
    {
        if char_in(chars[i], &members) {
            assert(set@.contains(s@[i as int]));
            return true;
        }
        i = i + 1;
    }
    false
}

/// The part of `name` before its first dot.
pub open spec fn base_name(name: Seq<char>) -> Seq<char> {
    text::until(name, '.')
}

/// Whether `name` is the name of a device on Windows.
pub open spec fn is_reserved(name: Seq<char>) -> bool {
    name == "CON"@ || name == "PRN"@ || name == "AUX"@ || name == "NUL"@ || name == "COM1"@ || name
        == "COM2"@ || name == "COM3"@ || name == "COM4"@ || name == "COM5"@ || name == "COM6"@
        || name == "COM7"@ || name == "COM8"@ || name == "COM9"@ || name == "LPT1"@ || name
        == "LPT2"@ || name == "LPT3"@ || name == "LPT4"@ || name == "LPT5"@ || name == "LPT6"@
        || name == "LPT7"@ || name == "LPT8"@ || name == "LPT9"@
}

fn reserved(name: &str) -> (yes: bool)
    ensures
        yes == is_reserved(name@),
{
    same(name, "CON") || same(name, "PRN") || same(name, "AUX") || same(name, "NUL") || same(
        name,
        "COM1",
    ) || same(name, "COM2") || same(name, "COM3") || same(name, "COM4") || same(name, "COM5")
        || same(name, "COM6") || same(name, "COM7") || same(name, "COM8") || same(name, "COM9")
        || same(name, "LPT1") || same(name, "LPT2") || same(name, "LPT3") || same(name, "LPT4")
        || same(name, "LPT5") || same(name, "LPT6") || same(name, "LPT7") || same(name, "LPT8")
        || same(name, "LPT9")
}

/// Why a file must not have the name `name`, whose upper-case form is `upper`, or `None`
/// where it may.
pub open spec fn refusal(name: Seq<char>, upper: Seq<char>) -> Option<Seq<char>> {
    if name.len() == 0 {
        Some("Filename is empty"@)
    } else if text::byte_length(name) > MAX_FILENAME_LENGTH {
        Some("Filename too long (max "@ + number::decimal(MAX_FILENAME_LENGTH as nat) + " chars)"@)
    } else if name.contains('\0') {
        Some("Filename contains null byte"@)
    } else if text::occurs(name, ".."@) || name.contains('/') || name.contains('\\') {
        Some("Invalid filename (contains path separators): "@ + name)
    } else if holds_any(name, DANGEROUS_CHARS@) {
        Some("Filename contains invalid characters: "@ + name)
    } else if is_reserved(base_name(upper)) {
        Some("Filename is a reserved name: "@ + name)
    } else {
        None
    }
}

/// Whether `r` is the name itself where nothing speaks against it, else the error that
/// says what does.
pub open spec fn admitted(
    name: Seq<char>,
    upper: Seq<char>,
    r: Result<String, AircError>,
) -> bool {
    match refusal(name, upper) {
        None => r matches Ok(s) && s@ == name,
        Some(why) => r matches Err(e) && e.says(why),
    }
}

/// `name` as the name of a file, where it may have it; `upper` is its upper-case form.
pub fn check_filename(name: &str, upper: &str) -> (r: Result<String, AircError>)
    ensures
        admitted(name@, upper@, r),
{
    if name.is_empty() {
        return Err(AircError::from("Filename is empty"));
    }
    if byte_len(name) > MAX_FILENAME_LENGTH {
        return Err(
            AircError::from(
                glue3(
                    "Filename too long (max ",
                    to_decimal(MAX_FILENAME_LENGTH as u64).as_str(),
                    " chars)",
                ),
            ),
        );
    }
    let chars = chars_of(name);
    if char_in('\0', &chars) {
        return Err(AircError::from("Filename contains null byte"));
    }
    if contains(name, "..") || char_in('/', &chars) || char_in('\\', &chars) {
        return Err(AircError::from(glue2("Invalid filename (contains path separators): ", name)));
    }
    if holds_any_of(name, DANGEROUS_CHARS) {
        return Err(AircError::from(glue2("Filename contains invalid characters: ", name)));
    }
    if reserved(before_char(upper, '.').as_str()) {
        return Err(AircError::from(glue2("Filename is a reserved name: ", name)));
    }
    Ok(name.to_owned())
}

/// Sanitize and validate filename for safe filesystem operations
pub fn sanitize_filename(filename: &str) -> (r: Result<String, AircError>)
    ensures
        admitted(filename@, casing::uppercase(filename@), r),
        vstd::utf8::is_ascii_chars(filename@) ==> admitted(
            filename@,
            filename@.map_values(|c: char| casing::ascii_upper(c)),
            r,
        ),
{
    let upper = to_uppercase(filename);
    check_filename(filename, upper.as_str())
}

/// A name that is accepted is a name of a file in a directory: it is there, it is short
/// enough, and it holds no separator, no way up, no null and no character that a file
/// system refuses.
pub proof fn law_accepted_names_stay_inside(name: Seq<char>, upper: Seq<char>)
    requires
        refusal(name, upper) is None,
    ensures
        0 < name.len(),
        text::byte_length(name) <= MAX_FILENAME_LENGTH,
        !name.contains('\0'),
        !name.contains('/'),
        !name.contains('\\'),
        !text::occurs(name, ".."@),
        !holds_any(name, DANGEROUS_CHARS@),
        !is_reserved(base_name(upper)),
{
}

/// A file may have every name that is there, has at most 255 bytes, holds no null, no slash,
/// no backslash, no two dots in a row and none of the characters that Windows refuses, and
/// whose part before the first dot is not, in upper case, the name of a device. It is taken
/// as it is. Every other name is refused.
pub proof fn law_names_are_accepted_or_refused(
    name: Seq<char>,
    base: Seq<char>,
    extension: Seq<char>,
    r: Result<String, AircError>,
)
    requires
        !base.contains('.'),
        extension.len() > 0 ==> extension[0] == '.',
        admitted(name, base + extension, r),
    ensures
        r is Ok <==> {
            &&& 0 < name.len()
            &&& text::byte_length(name) <= 255
            &&& forall|i: int|
                0 <= i < name.len() ==> (#[trigger] name[i]) != '\0' && name[i] != '/' && name[i]
                    != '\\' && name[i] != '<' && name[i] != '>' && name[i] != ':' && name[i] != '"'
                    && name[i] != '|' && name[i] != '?' && name[i] != '*'
            &&& forall|i: int, j: int|
                0 <= i < name.len() && 0 <= j < name.len() && j == i + 1 ==> !(#[trigger] name[i]
                    == '.' && #[trigger] name[j] == '.')
            &&& base != "CON"@ && base != "PRN"@ && base != "AUX"@ && base != "NUL"@
            &&& !(base.len() == 4 && (base.take(3) == "COM"@ || base.take(3) == "LPT"@) && '1'
                <= base[3] <= '9')
        },
        r matches Ok(s) ==> s@ == name,
        r matches Err(e) ==> e is Other,
{
    let upper = base + extension;
    lemma_base(base, extension);
    lemma_dots(name);
    lemma_dangerous(name);
    lemma_reserved(base);
    assert forall|c: char| !name.contains(c) <==> forall|i: int|
        0 <= i < name.len() ==> #[trigger] name[i] != c by {
        if name.contains(c) {
            let i = choose|i: int| 0 <= i < name.len() && name[i] == c;
            assert(name[i] == c);
        }
    }
    if refusal(name, upper) is None {
        assert(!name.contains('\0') && !name.contains('/') && !name.contains('\\'));
    }
}

/// A name that is refused is refused with the first reason there is: that it is empty, too
/// long, holds a null, holds a way to another directory, holds a character that Windows
/// refuses, or is the name of a device.
pub proof fn law_refusals_say_why(
    name: Seq<char>,
    base: Seq<char>,
    extension: Seq<char>,
    e: AircError,
)
    requires
        !base.contains('.'),
        extension.len() > 0 ==> extension[0] == '.',
        admitted(name, base + extension, Err(e)),
    ensures
        ({
            let way = name.contains('/') || name.contains('\\') || exists|i: int, j: int|
                0 <= i < name.len() && 0 <= j < name.len() && j == i + 1 && #[trigger] name[i]
                    == '.' && #[trigger] name[j] == '.';
            let strange = name.contains('<') || name.contains('>') || name.contains(':')
                || name.contains('"') || name.contains('|') || name.contains('?')
                || name.contains('*');
            e matches AircError::Other(s) && s@ == if name.len() == 0 {
                "Filename is empty"@
            } else if text::byte_length(name) > 255 {
                "Filename too long (max "@ + number::decimal(255) + " chars)"@
            } else if name.contains('\0') {
                "Filename contains null byte"@
            } else if way {
                "Invalid filename (contains path separators): "@ + name
            } else if strange {
                "Filename contains invalid characters: "@ + name
            } else {
                "Filename is a reserved name: "@ + name
            }
        }),
{
    lemma_dots(name);
    lemma_dangerous(name);
    lemma_base(base, extension);
}

proof fn lemma_base(base: Seq<char>, extension: Seq<char>)
    requires
        !base.contains('.'),
        extension.len() > 0 ==> extension[0] == '.',
    ensures
        base_name(base + extension) == base,
{
    if extension.len() > 0 {
        text::law_until(base, '.', extension.drop_first());
        assert(base + seq!['.'] + extension.drop_first() =~= base + extension);
    } else {
        text::law_until(base, '.', seq![]);
        assert(base + extension =~= base);
    }
}

proof fn lemma_dots(name: Seq<char>)
    ensures
        text::occurs(name, ".."@) <==> exists|i: int, j: int|
            0 <= i < name.len() && 0 <= j < name.len() && j == i + 1 && #[trigger] name[i] == '.'
                && #[trigger] name[j] == '.',
{
    reveal_strlit("..");
    if text::occurs(name, ".."@) {
        let i = choose|i: int| text::occurs_at(name, ".."@, i);
        assert(name[i] == name.subrange(i, i + 2)[0]);
        assert(name[i + 1] == name.subrange(i, i + 2)[1]);
    }
    if exists|i: int, j: int|
        0 <= i < name.len() && 0 <= j < name.len() && j == i + 1 && #[trigger] name[i] == '.'
            && #[trigger] name[j] == '.' {
        let (i, j) = choose|i: int, j: int|
            0 <= i < name.len() && 0 <= j < name.len() && j == i + 1 && #[trigger] name[i] == '.'
                && #[trigger] name[j] == '.';
        assert(name.subrange(i, i + 2) =~= ".."@);
        assert(text::occurs_at(name, ".."@, i));
    }
}

proof fn lemma_dangerous(name: Seq<char>)
    ensures
        holds_any(name, DANGEROUS_CHARS@) <==> {
            ||| name.contains('<')
            ||| name.contains('>')
            ||| name.contains(':')
            ||| name.contains('"')
            ||| name.contains('|')
            ||| name.contains('?')
            ||| name.contains('*')
        },
        holds_any(name, DANGEROUS_CHARS@) <==> exists|i: int|
            0 <= i < name.len() && ((#[trigger] name[i]) == '<' || name[i] == '>' || name[i] == ':'
                || name[i] == '"' || name[i] == '|' || name[i] == '?' || name[i] == '*'),
{
    reveal_strlit("<>:\"|?*");
    let set = DANGEROUS_CHARS@;
    assert forall|c: char| #[trigger] set.contains(c) <==> (c == '<' || c == '>' || c == ':' || c
        == '"' || c == '|' || c == '?' || c == '*') by {
        assert(set[0] == '<' && set[1] == '>' && set[2] == ':' && set[3] == '"' && set[4] == '|'
            && set[5] == '?' && set[6] == '*');
        assert(set.len() == 7);
    }
    if holds_any(name, set) {
        let i = choose|i: int| 0 <= i < name.len() && set.contains(#[trigger] name[i]);
        assert(name.contains(name[i]));
    }
    assert forall|c: char| #[trigger] name.contains(c) && set.contains(c) implies holds_any(
        name,
        set,
    ) by {
        let i = choose|i: int| 0 <= i < name.len() && name[i] == c;
        assert(set.contains(name[i]));
    }
    assert(set.contains('<') && set.contains('>') && set.contains(':') && set.contains('"')
        && set.contains('|') && set.contains('?') && set.contains('*'));
    if exists|i: int|
        0 <= i < name.len() && ((#[trigger] name[i]) == '<' || name[i] == '>' || name[i] == ':'
            || name[i] == '"' || name[i] == '|' || name[i] == '?' || name[i] == '*') {
        let i = choose|i: int|
            0 <= i < name.len() && ((#[trigger] name[i]) == '<' || name[i] == '>' || name[i] == ':'
                || name[i] == '"' || name[i] == '|' || name[i] == '?' || name[i] == '*');
        assert(set.contains(name[i]));
    }
}

proof fn lemma_reserved(name: Seq<char>)
    ensures
        is_reserved(name) <==> {
            ||| name == "CON"@
            ||| name == "PRN"@
            ||| name == "AUX"@
            ||| name == "NUL"@
            ||| name.len() == 4 && (name.take(3) == "COM"@ || name.take(3) == "LPT"@) && '1'
                <= name[3] <= '9'
        },
{
    reveal_strlit("COM");
    reveal_strlit("COM1");
    reveal_strlit("COM2");
    reveal_strlit("COM3");
    reveal_strlit("COM4");
    reveal_strlit("COM5");
    reveal_strlit("COM6");
    reveal_strlit("COM7");
    reveal_strlit("COM8");
    reveal_strlit("COM9");
    reveal_strlit("LPT");
    reveal_strlit("LPT1");
    reveal_strlit("LPT2");
    reveal_strlit("LPT3");
    reveal_strlit("LPT4");
    reveal_strlit("LPT5");
    reveal_strlit("LPT6");
    reveal_strlit("LPT7");
    reveal_strlit("LPT8");
    reveal_strlit("LPT9");
    let com = "COM"@;
    let lpt = "LPT"@;
    assert("COM1"@ =~= com.push('1') && "COM2"@ =~= com.push('2') && "COM3"@ =~= com.push('3'));
    assert("COM4"@ =~= com.push('4') && "COM5"@ =~= com.push('5') && "COM6"@ =~= com.push('6'));
    assert("COM7"@ =~= com.push('7') && "COM8"@ =~= com.push('8') && "COM9"@ =~= com.push('9'));
    assert("LPT1"@ =~= lpt.push('1') && "LPT2"@ =~= lpt.push('2') && "LPT3"@ =~= lpt.push('3'));
    assert("LPT4"@ =~= lpt.push('4') && "LPT5"@ =~= lpt.push('5') && "LPT6"@ =~= lpt.push('6'));
    assert("LPT7"@ =~= lpt.push('7') && "LPT8"@ =~= lpt.push('8') && "LPT9"@ =~= lpt.push('9'));
    assert(com.push('1').take(3) =~= com && com.push('2').take(3) =~= com && com.push('3').take(3)
        =~= com && com.push('4').take(3) =~= com && com.push('5').take(3) =~= com && com.push(
        '6',
    ).take(3) =~= com && com.push('7').take(3) =~= com && com.push('8').take(3) =~= com
        && com.push('9').take(3) =~= com);
    assert(lpt.push('1').take(3) =~= lpt && lpt.push('2').take(3) =~= lpt && lpt.push('3').take(3)
        =~= lpt && lpt.push('4').take(3) =~= lpt && lpt.push('5').take(3) =~= lpt && lpt.push(
        '6',
    ).take(3) =~= lpt && lpt.push('7').take(3) =~= lpt && lpt.push('8').take(3) =~= lpt
        && lpt.push('9').take(3) =~= lpt);
    if name.len() == 4 {
        assert(name =~= name.take(3).push(name[3]));
    }
}

/// Whether the path with the components `path` lies in the directory with the components
/// `base`.
pub open spec fn lies_in(path: Seq<Vec<u8>>, base: Seq<Vec<u8>>) -> bool {
    &&& base.len() <= path.len()
    &&& forall|i: int| 0 <= i < base.len() ==> (#[trigger] path[i])@ == base[i]@
}

fn same_bytes(a: &Vec<u8>, b: &Vec<u8>) -> (yes: bool)
    ensures
        yes == (a@ == b@),
{
    if a.len() != b.len() {
        return false;
    }
    let n: usize = a.len();
    let mut i: usize = 0;
    while i < n
        invariant
            n == a@.len(),
            n == b@.len(),
            i <= n,
            forall|j: int| 0 <= j < i ==> a@[j] == b@[j],
        decreases n - i,
    {
        if a[i] != b[i] {
            return false;
        }
        i = i + 1;
    }
    assert(a@ =~= b@);
    true
}

/// Whether the path with the components `path` lies in the directory with the components
/// `base`.
pub fn path_lies_in(path: &Vec<Vec<u8>>, base: &Vec<Vec<u8>>) -> (yes: bool)
    ensures
        yes == lies_in(path@, base@),
{
    if base.len() > path.len() {
        return false;
    }
    let n: usize = base.len();
    let mut i: usize = 0;
    while i < n
        invariant
            n == base@.len(),
            n <= path@.len(),
            i <= n,
            forall|j: int| 0 <= j < i ==> (#[trigger] path@[j])@ == base@[j]@,
        decreases n - i,
    {
        if !same_bytes(&path[i], &base[i]) {
            assert(path@[i as int]@ != base@[i as int]@);
            return false;
        }
        i = i + 1;
    }
    true
}

/// Whether `c` separates the parts of a path on any system.
pub open spec fn is_separator(c: char) -> bool {
    c == '/' || c == '\\'
}

/// Whether `path` is the file `name` directly in the directory `dir`: the directory, one
/// separator and the name. There is no separator where the directory is empty or ends in
/// one already, and there may be none where it ends in the colon of a drive.
pub open spec fn joins(dir: Seq<char>, name: Seq<char>, path: Seq<char>) -> bool {
    let n = path.len() - dir.len() - name.len();
    &&& n == 0 || n == 1
    &&& dir.is_prefix_of(path)
    &&& name.is_suffix_of(path)
    &&& n == 1 ==> is_separator(path[dir.len() as int])
    &&& n == 0 ==> dir.len() == 0 || is_separator(dir.last()) || dir.last() == ':'
    &&& dir.len() == 0 || dir.last() == '/' ==> n == 0
}

/// Whether `dir` has the prefix by which Windows takes the rest of a path as it stands.
pub open spec fn is_verbatim(dir: Seq<char>) -> bool {
    "\\\\?\\"@.is_prefix_of(dir)
}

/// `Path::join`: the path of the file `name` in the directory `dir`. A name without a
/// separator and a colon is no absolute path, so it adjoins. The separator is that of the
/// system, so which one it is is left open. Nothing is said of a directory with the prefix
/// `\\?\`, whose parts Windows puts together anew.
#[verifier::external_body]
fn join_path(dir: &str, name: &str) -> (path: String)
    requires
        name@.len() > 0,
        !name@.contains('/'),
        !name@.contains('\\'),
        !name@.contains(':'),
    ensures
        !is_verbatim(dir@) ==> joins(dir@, name@, path@),
{
    Path::new(dir).join(name).to_string_lossy().into_owned()
}

/// Whether `r` is the path of the file in the download directory where the name may be
/// used, else the error that says why not.
pub open spec fn placed(
    download_path: Seq<char>,
    filename: Seq<char>,
    upper: Seq<char>,
    r: Result<String, AircError>,
) -> bool {
    match refusal(filename, upper) {
        None => r matches Ok(path) && (!is_verbatim(download_path) ==> joins(
            download_path,
            filename,
            path@,
        )),
        Some(why) => r matches Err(e) && e.says(why),
    }
}

/// The path of the file `filename` in the download directory, where it may have that name.
pub fn file_path(download_path: &str, filename: &str) -> (r: Result<String, AircError>)
    ensures
        placed(download_path@, filename@, casing::uppercase(filename@), r),
        vstd::utf8::is_ascii_chars(filename@) ==> placed(
            download_path@,
            filename@,
            filename@.map_values(|c: char| casing::ascii_upper(c)),
            r,
        ),
{
    let sanitized = sanitize_filename(filename)?;
    proof {
        lemma_no_colon(filename@);
    }
    Ok(join_path(download_path, sanitized.as_str()))
}

proof fn lemma_no_colon(name: Seq<char>)
    ensures
        !holds_any(name, DANGEROUS_CHARS@) ==> !name.contains(':'),
{
    reveal_strlit("<>:\"|?*");
    let set = DANGEROUS_CHARS@;
    assert(set[2] == ':');
    if name.contains(':') {
        let i = choose|i: int| 0 <= i < name.len() && name[i] == ':';
        assert(set.contains(name[i]));
    }
}

/// A file that is accepted lies directly in the download directory: behind the directory
/// its path has nothing but the name, which is a single part of a path and no way up.
pub proof fn law_files_lie_in_the_directory(
    download_path: Seq<char>,
    filename: Seq<char>,
    upper: Seq<char>,
    path: String,
)
    requires
        !is_verbatim(download_path),
        placed(download_path, filename, upper, Ok(path)),
    ensures
        joins(download_path, filename, path@),
        !filename.contains('/'),
        !filename.contains('\\'),
        !text::occurs(filename, ".."@),
        forall|i: int|
            path@.len() - filename.len() <= i < path@.len() ==> !is_separator(#[trigger] path@[i]),
        download_path.len() > 0 && download_path.last() != ':' ==> path@.len() > filename.len()
            && is_separator(path@[path@.len() - filename.len() - 1]),
{
    let p = path@;
    let from = p.len() - filename.len();
    assert forall|i: int| from <= i < p.len() implies !is_separator(#[trigger] p[i]) by {
        assert(p[i] == filename[i - from]);
    }
    let d = download_path.len() as int;
    if d > 0 && download_path.last() != ':' {
        assert(p[d - 1] == download_path[d - 1]);
    }
}

/// A file is saved under its name in the download directory: behind the directory the path
/// has the name, with one separator between where the directory does not end in one.
pub proof fn law_files_are_saved_under_their_name(
    download_path: Seq<char>,
    filename: Seq<char>,
    upper: Seq<char>,
    name: Result<String, AircError>,
    r: Result<String, AircError>,
)
    requires
        admitted(filename, upper, name),
        placed(download_path, filename, upper, r),
    ensures
        r is Ok <==> name is Ok,
        r matches Err(e) ==> (name matches Err(f) && e.text() == f.text()),
        !(download_path.len() >= 4 && download_path[0] == '\\' && download_path[1] == '\\'
            && download_path[2] == '?' && download_path[3] == '\\') ==> (r matches Ok(path) ==> {
            let d = download_path;
            ||| path@ == d + filename && (d.len() == 0 || d.last() == '/' || d.last() == '\\'
                || d.last() == ':')
            ||| path@ == d + seq!['/'] + filename && d.len() > 0 && d.last() != '/'
            ||| path@ == d + seq!['\\'] + filename && d.len() > 0 && d.last() != '/'
        }),
{
    reveal_strlit("\\\\?\\");
    if r is Ok {
        let path = r->Ok_0@;
        let d = download_path.len() as int;
        if is_verbatim(download_path) {
            assert(download_path[0] == "\\\\?\\"@[0]);
            assert(download_path[1] == "\\\\?\\"@[1]);
            assert(download_path[2] == "\\\\?\\"@[2]);
            assert(download_path[3] == "\\\\?\\"@[3]);
        } else {
            assert(path =~= path.take(d) + path.skip(d));
            assert(path.take(d) =~= download_path);
            if path.len() == d + filename.len() {
                assert(path.skip(d) =~= filename);
            } else {
                assert(path =~= download_path + seq![path[d]] + filename);
            }
        }
    }
}

/// Whether `r` is the path of the file where the file may be put there, else the error that
/// says why not.
pub open spec fn confined(
    download_path: Seq<char>,
    filename: Seq<char>,
    upper: Seq<char>,
    base: Seq<Vec<u8>>,
    parent: Option<Vec<Vec<u8>>>,
    r: Result<String, AircError>,
) -> bool {
    if refusal(filename, upper) is None && parent is Some && !lies_in(parent->0@, base) {
        r matches Err(e) && e.says(
            "Path traversal detected: "@ + filename + " escapes "@ + download_path,
        )
    } else {
        placed(download_path, filename, upper, r)
    }
}

/// The path under which a file may be put into the download directory. `base` holds the
/// components of that directory and `parent` those of the directory that the file would
/// lie in, both with links resolved.
pub fn safe_file_path(
    download_path: &str,
    filename: &str,
    base: &Vec<Vec<u8>>,
    parent: &Option<Vec<Vec<u8>>>,
) -> (r: Result<String, AircError>)
    ensures
        confined(
            download_path@,
            filename@,
            casing::uppercase(filename@),
            base@,
            *parent,
            r,
        ),
        vstd::utf8::is_ascii_chars(filename@) ==> confined(
            download_path@,
            filename@,
            filename@.map_values(|c: char| casing::ascii_upper(c)),
            base@,
            *parent,
            r,
        ),
{
    let path = file_path(download_path, filename)?;
    if let Some(directory) = parent {
        if !path_lies_in(directory, base) {
            return Err(
                AircError::from(
                    glue4("Path traversal detected: ", filename, " escapes ", download_path),
                ),
            );
        }
    }
    Ok(path)
}

/// A path lies in a directory exactly where its first components are those of the directory.
pub proof fn law_paths_in_a_directory(base: Seq<Vec<u8>>, rest: Seq<Vec<u8>>, other: Seq<Vec<u8>>)
    ensures
        lies_in(base + rest, base),
        other.len() < base.len() ==> !lies_in(other, base),
        (exists|i: int|
            0 <= i < base.len() && i < other.len() && (#[trigger] other[i])@ != base[i]@)
            ==> !lies_in(other, base),
{
    assert forall|i: int| 0 <= i < base.len() implies (#[trigger] (base + rest)[i])@ == base[i]@ by {
        assert((base + rest)[i] == base[i]);
    }
}

/// A file is refused exactly where its name is, or where the directory that it would lie in
/// is neither the download directory nor one in it.
pub proof fn law_files_stay_in_the_directory(
    download_path: Seq<char>,
    filename: Seq<char>,
    upper: Seq<char>,
    base: Seq<Vec<u8>>,
    parent: Option<Vec<Vec<u8>>>,
    name: Result<String, AircError>,
    r: Result<String, AircError>,
)
    requires
        admitted(filename, upper, name),
        confined(download_path, filename, upper, base, parent, r),
    ensures
        r is Ok <==> {
            &&& name is Ok
            &&& parent matches Some(p) ==> base.len() <= p@.len() && forall|i: int|
                0 <= i < base.len() ==> (#[trigger] p@[i])@ == base[i]@
        },
        r is Ok ==> placed(download_path, filename, upper, r),
        name is Ok ==> (r matches Err(e) ==> (e matches AircError::Other(s) && s@
            == "Path traversal detected: "@ + filename + " escapes "@ + download_path)),
        r matches Err(e) ==> (name matches Err(f) ==> e.text() == f.text()),
{
}

/// The address to connect to: a number stands for its dotted form, anything else for
/// itself.
pub open spec fn resolved_ip(ip: Seq<char>) -> Seq<char> {
    match number::parsed(ip, u32::MAX as nat) {
        Ok(n) => quad_text(n),
        Err(_) => ip,
    }
}

/// The address to connect to.
pub fn resolve_ip(ip: &str) -> (s: String)
    ensures
        s@ == resolved_ip(ip@),
{
    match decode_dcc_ip_address(ip) {
        Ok(address) => address,
        Err(_) => ip.to_owned(),
    }
}

/// The number of bytes that an offer announces: a number of at most the accepted size.
pub fn announced_size(size: &str) -> (r: Result<u64, AircError>)
    ensures
        match number::parsed(text::trimmed(size@), u64::MAX as nat) {
            Ok(n) => if n > MAX_FILE_SIZE_BYTES {
                r matches Err(e) && e.says(
                    "File size "@ + number::decimal(n) + " bytes exceeds maximum allowed size of "@
                        + number::decimal(MAX_FILE_SIZE_BYTES as nat) + " bytes"@,
                )
            } else {
                r matches Ok(v) && v == n
            },
            Err(why) => r matches Err(e) && e.says(
                "Invalid file size '"@ + size@ + "': "@ + why.text(),
            ),
        },
{
    match parse_unsigned(trim(size), u64::MAX) {
        Ok(n) => {
            if n > MAX_FILE_SIZE_BYTES {
                Err(
                    AircError::from(
                        glue5(
                            "File size ",
                            to_decimal(n).as_str(),
                            " bytes exceeds maximum allowed size of ",
                            to_decimal(MAX_FILE_SIZE_BYTES).as_str(),
                            " bytes",
                        ),
                    ),
                )
            } else {
                Ok(n)
            }
        },
        Err(why) => Err(
            AircError::from(glue4("Invalid file size '", size, "': ", why.message().as_str())),
        ),
    }
}

/// The address and port to connect to.
pub fn peer_address(ip: &str, port: &str) -> (r: Result<String, AircError>)
    ensures
        match number::parsed(text::trimmed(port@), u16::MAX as nat) {
            Ok(n) => r matches Ok(s) && s@ == resolved_ip(ip@) + ":"@ + number::decimal(n),
            Err(why) => r matches Err(e) && e.says(
                "Invalid port '"@ + port@ + "': "@ + why.text(),
            ),
        },
{
    match parse_unsigned(trim(port), u16::MAX as u64) {
        Ok(n) => Ok(glue3(resolve_ip(ip).as_str(), ":", to_decimal(n).as_str())),
        Err(why) => Err(
            AircError::from(glue4("Invalid port '", port, "': ", why.message().as_str())),
        ),
    }
}

/// The event that a download of `size` bytes begins.
pub fn started_event(filename: &str, size: u64) -> (event: UiEvent)
    ensures
        event matches UiEvent::DownloadStarted { filename: f, size: s } && f@ == filename@ && s
            == size,
{
    UiEvent::DownloadStarted { filename: filename.to_owned(), size }
}

/// Where a file comes from and how many bytes it has.
pub struct Plan {
    pub address: String,
    pub file_size: u64,
}

/// What an offer leads to: the event that the download begins, once its size is known to be
/// acceptable, and then the plan, once its port is known to be one.
pub fn plan_transfer(filename: &str, ip: &str, port: &str, size: &str) -> (r: (
    Option<UiEvent>,
    Result<Plan, AircError>,
))
    ensures
        match number::parsed(text::trimmed(size@), u64::MAX as nat) {
            Err(why) => {
                &&& r.0 is None
                &&& r.1 matches Err(e)
                &&& e.says("Invalid file size '"@ + size@ + "': "@ + why.text())
            },
            Ok(n) => if n > MAX_FILE_SIZE_BYTES {
                &&& r.0 is None
                &&& r.1 matches Err(e)
                &&& e.says(
                    "File size "@ + number::decimal(n) + " bytes exceeds maximum allowed size of "@
                        + number::decimal(MAX_FILE_SIZE_BYTES as nat) + " bytes"@,
                )
            } else {
                &&& r.0 matches Some(UiEvent::DownloadStarted { filename: f, size: s })
                &&& f@ == filename@
                &&& s == n
                &&& match number::parsed(text::trimmed(port@), u16::MAX as nat) {
                    Err(why) => r.1 matches Err(e) && e.says(
                        "Invalid port '"@ + port@ + "': "@ + why.text(),
                    ),
                    Ok(p) => {
                        &&& r.1 matches Ok(plan)
                        &&& plan.address@ == resolved_ip(ip@) + ":"@ + number::decimal(p)
                        &&& plan.file_size == n
                    },
                }
            },
        },
{
    match announced_size(size) {
        Err(e) => (None, Err(e)),
        Ok(file_size) => {
            let started = started_event(filename, file_size);
            match peer_address(ip, port) {
                Err(e) => (Some(started), Err(e)),
                Ok(address) => (Some(started), Ok(Plan { address, file_size })),
            }
        },
    }
}

/// The error for a connection that was not made in time.
pub fn connect_timeout_error(address: &str, secs: u64) -> (e: AircError)
    ensures
        e matches AircError::Timeout(s) && s@ == "DCC connection to "@ + address
            @ + " timed out after "@ + number::decimal(secs as nat) + " seconds"@,
{
    AircError::Timeout(
        glue5(
            "DCC connection to ",
            address,
            " timed out after ",
            to_decimal(secs).as_str(),
            " seconds",
        ),
    )
}

/// The error for a connection that failed for the reason `why`.
pub fn connect_error(address: &str, why: &str) -> (e: AircError)
    ensures
        e matches AircError::Connection(s) && s@ == "Failed to connect to "@ + address@ + ": "@
            + why@,
{
    AircError::Connection(glue4("Failed to connect to ", address, ": ", why))
}

/// What the connection of a transfer is called.
pub fn connect_label(address: &str) -> (s: String)
    ensures
        s@ == "DCC connection to "@ + address@,
{
    glue2("DCC connection to ", address)
}

/// The error for a file that could not be made for the reason `why`.
pub fn create_error(path: &str, why: &str) -> (e: AircError)
    ensures
        e.says("Failed to create file '"@ + path@ + "': "@ + why@),
{
    AircError::from(glue4("Failed to create file '", path, "': ", why))
}

/// The error for a transfer in which nothing came for `secs` seconds.
pub fn stall_error(secs: u64) -> (e: AircError)
    ensures
        e.says("DCC transfer timed out after "@ + number::decimal(secs as nat) + " seconds"@),
{
    AircError::from(
        glue3("DCC transfer timed out after ", to_decimal(secs).as_str(), " seconds"),
    )
}

/// `total` in the four bytes of an acknowledgement, the most significant first; of larger
/// totals the low 32 bits.
pub open spec fn ack_bytes(total: nat) -> Seq<u8> {
    seq![
        (total / 16777216 % 256) as u8,
        (total / 65536 % 256) as u8,
        (total / 256 % 256) as u8,
        (total % 256) as u8,
    ]
}

/// `total` in the four bytes of an acknowledgement.
pub fn acknowledgement(total: u64) -> (bytes: Vec<u8>)
    ensures
        bytes@ == ack_bytes(total as nat),
{
    let mut bytes: Vec<u8> = Vec::new();
    bytes.push((total / 16777216 % 256) as u8);
    bytes.push((total / 65536 % 256) as u8);
    bytes.push((total / 256 % 256) as u8);
    bytes.push((total % 256) as u8);
    assert(bytes@ =~= ack_bytes(total as nat));
    bytes
}

/// The number that an acknowledgement states is the total, modulo two to the 32nd.
pub proof fn law_acknowledgement_states_total(total: nat)
    ensures
        ack_bytes(total).len() == 4,
        ack_bytes(total)[0] * 16777216 + ack_bytes(total)[1] * 65536 + ack_bytes(total)[2] * 256
            + ack_bytes(total)[3] == total % 4294967296,
{
    let q1 = total / 256;
    let q2 = q1 / 256;
    let q3 = q2 / 256;
    let q4 = q3 / 256;
    assert(total / 65536 == q2);
    assert(total / 16777216 == q3);
    assert(total / 4294967296 == q4);
    assert(ack_bytes(total)[0] == q3 % 256);
    assert(ack_bytes(total)[1] == q2 % 256);
    assert(ack_bytes(total)[2] == q1 % 256);
    assert(ack_bytes(total)[3] == total % 256);
    assert(total == 256 * q1 + total % 256);
    assert(q1 == 256 * q2 + q1 % 256);
    assert(q2 == 256 * q3 + q2 % 256);
    assert(q3 == 256 * q4 + q3 % 256);
    assert(total == 4294967296 * q4 + total % 4294967296);
}

/// A transfer under way: of `file_size` bytes `received` have come, and progress was last
/// reported at `last_percent`.
pub struct Transfer {
    pub file_size: u64,
    pub received: u64,
    pub last_percent: u16,
}

/// What to do after bytes have come: write them to the file, report progress where
/// `progress` says so, and send `ack` to the peer.
pub struct Chunk {
    pub progress: Option<UiEvent>,
    pub ack: Vec<u8>,
}

impl Transfer {
    pub open spec fn wf(self) -> bool {
        self.received <= self.file_size
    }

    pub fn new(file_size: u64) -> (t: Transfer)
        ensures
            t == (Transfer { file_size, received: 0, last_percent: 0 }),
            t.wf(),
    {
        Transfer { file_size, received: 0, last_percent: 0 }
    }

    /// How many bytes to read next: as many as one chunk and the rest of the file allow.
    pub open spec fn wanted(self) -> nat {
        if self.file_size - self.received < DCC_CHUNK_SIZE {
            (self.file_size - self.received) as nat
        } else {
            DCC_CHUNK_SIZE as nat
        }
    }

    /// How many bytes to read next, or `None` when the file is complete.
    pub fn next_read(&self) -> (n: Option<usize>)
        requires
            self.wf(),
        ensures
            n is None <==> self.received == self.file_size,
            n matches Some(k) ==> k == self.wanted() && k > 0,
    {
        if self.received < self.file_size {
            let rest: u64 = self.file_size - self.received;
            if rest < DCC_CHUNK_SIZE as u64 {
                Some(rest as usize)
            } else {
                Some(DCC_CHUNK_SIZE)
            }
        } else {
            None
        }
    }

    /// The percentage of the file once `total` bytes have come.
    pub open spec fn percent_at(self, total: nat) -> nat {
        percent::truncated_percent(total, self.file_size as nat)
    }

    /// Takes note that `bytes_read` bytes have come, `elapsed_ms` milliseconds after the
    /// last report of progress. None means that the peer has closed the connection.
    pub fn on_read(&mut self, filename: &str, bytes_read: usize, elapsed_ms: u64) -> (r: Result<
        Chunk,
        AircError,
    >)
        requires
            old(self).wf(),
            old(self).received < old(self).file_size,
            bytes_read <= old(self).wanted(),
        ensures
            final(self).wf(),
            if bytes_read == 0 {
                &&& *final(self) == *old(self)
                &&& r matches Err(e)
                &&& e.says(
                    "Connection closed after "@ + number::decimal(old(self).received as nat)
                        + " of "@ + number::decimal(old(self).file_size as nat) + " bytes"@,
                )
            } else {
                let total = (old(self).received + bytes_read) as nat;
                let percent = old(self).percent_at(total);
                let report = percent != old(self).last_percent || elapsed_ms
                    >= PROGRESS_INTERVAL_MS;
                &&& *final(self) == (Transfer {
                    received: total as u64,
                    last_percent: if report {
                        percent as u16
                    } else {
                        old(self).last_percent
                    },
                    ..*old(self)
                })
                &&& r matches Ok(chunk)
                &&& chunk.ack@ == ack_bytes(total)
                &&& if report {
                    chunk.progress matches Some(
                        UiEvent::DownloadProgress { filename: f, received },
                    ) && f@ == filename@ && received == total
                } else {
                    chunk.progress is None
                }
            },
    {
        if bytes_read == 0 {
            return Err(
                AircError::from(
                    glue5(
                        "Connection closed after ",
                        to_decimal(self.received).as_str(),
                        " of ",
                        to_decimal(self.file_size).as_str(),
                        " bytes",
                    ),
                ),
            );
        }
        self.received = self.received + bytes_read as u64;
        let percent: u16 = percent_truncated(self.received, self.file_size);
        let progress = if percent != self.last_percent || elapsed_ms >= PROGRESS_INTERVAL_MS {
            self.last_percent = percent;
            Some(
                UiEvent::DownloadProgress {
                    filename: filename.to_owned(),
                    received: self.received,
                },
            )
        } else {
            None
        };
        Ok(Chunk { progress, ack: acknowledgement(self.received) })
    }
}

/// A read asks for what is missing, but for no more than 65536 bytes.
pub proof fn law_reads_ask_for_what_is_missing(t: Transfer)
    requires
        t.received <= t.file_size,
    ensures
        t.wf(),
        t.wanted() <= 65536,
        t.received + t.wanted() <= t.file_size,
        t.wanted() == 65536 || t.received + t.wanted() == t.file_size,
{
}

/// The sum of `reads`.
pub open spec fn sum(reads: Seq<nat>) -> nat
    decreases reads.len(),
{
    if reads.len() == 0 {
        0
    } else {
        sum(reads.drop_last()) + reads.last()
    }
}

/// Whether `next` is the transfer `now` after `n` bytes have come, which is some but no
/// more than were asked for.
pub open spec fn took(now: Transfer, next: Transfer, n: nat) -> bool {
    &&& 0 < n <= now.wanted()
    &&& next.received == now.received + n
    &&& next.file_size == now.file_size
}

/// A transfer that has taken in bytes in any number of reads, each within what was asked
/// for, never takes in more than the file has, and it asks for more exactly as long as
/// bytes are missing.
pub proof fn law_transfer_takes_the_whole_file(states: Seq<Transfer>, reads: Seq<nat>)
    requires
        states.len() == reads.len() + 1,
        states[0].wf(),
        states[0].received == 0,
        forall|i: int|
            0 <= i < reads.len() ==> took(states[i], states[i + 1], #[trigger] reads[i]),
    ensures
        states.last().received == sum(reads),
        states.last().wf(),
        states.last().file_size == states[0].file_size,
        states.last().wanted() == 0 <==> sum(reads) == states[0].file_size,
    decreases reads.len(),
{
    if reads.len() > 0 {
        let fewer = states.drop_last();
        let earlier = reads.drop_last();
        assert forall|i: int| 0 <= i < earlier.len() implies took(
            fewer[i],
            fewer[i + 1],
            #[trigger] earlier[i],
        ) by {
            assert(earlier[i] == reads[i]);
        }
        law_transfer_takes_the_whole_file(fewer, earlier);
        let last = reads.len() - 1;
        assert(took(states[last], states[last + 1], reads[last]));
        assert(fewer.last() == states[last]);
    }
}

/// The last bytes of a file bring its percentage to a hundred.
pub proof fn law_complete_transfer_is_at_hundred(t: Transfer)
    requires
        t.file_size > 0,
    ensures
        t.percent_at(t.file_size as nat) == 100,
{
    percent::law_complete_is_hundred(t.file_size as nat);
}

/// The percentage of a transfer is the exact one, cut off to an integer, up to one part in
/// two to the 50th.
pub proof fn law_transfer_percentages_are_exact(t: Transfer, total: nat)
    requires
        total <= t.file_size,
        t.file_size > 0,
    ensures
        ({
            let p = t.percent_at(total);
            let size = t.file_size as nat;
            let k = 0x4_0000_0000_0000nat;
            &&& p <= 100
            &&& k * (p * size) <= (k + 1) * (100 * total)
            &&& k * (100 * total) <= (k + 1) * ((p + 1) * size)
        }),
{
    percent::law_percentages_are_exact(total, t.file_size as nat);
    percent::law_complete_is_hundred(t.file_size as nat);
    percent::law_percentage_never_falls(total, t.file_size as nat, t.file_size as nat);
}

/// The event that a download is complete.
pub fn completed_event(filename: &str) -> (event: UiEvent)
    ensures
        event matches UiEvent::DownloadCompleted(f) && f@ == filename@,
{
    UiEvent::DownloadCompleted(filename.to_owned())
}

/// What stands behind the last slash of `path`.
pub open spec fn behind_slash(path: Seq<char>) -> Seq<char>
    decreases path.len(),
{
    if path.len() == 0 || path.last() == '/' {
        seq![]
    } else {
        behind_slash(path.drop_last()).push(path.last())
    }
}

/// Whether every system takes what stands behind the last slash of `path` for its last
/// part: there is something, it holds no other separator and no colon, it is not the dot
/// that stands for the directory itself, and the path does not begin with the two
/// separators of a name on a network.
pub open spec fn ends_in_part(path: Seq<char>) -> bool {
    let part = behind_slash(path);
    &&& part.len() > 0
    &&& !part.contains('\\')
    &&& !part.contains(':')
    &&& part != "."@
    &&& !(path.len() > 1 && is_separator(path[0]) && is_separator(path[1]))
}

/// The last part of a path is what stands behind its last slash, or all of it where it has
/// none.
pub proof fn law_last_part(directory: Seq<char>, name: Seq<char>)
    requires
        !name.contains('/'),
    ensures
        behind_slash(directory + seq!['/'] + name) == name,
        behind_slash(name) == name,
        name.len() > 0 && !name.contains('\\') && !name.contains(':') && name != seq!['.'] ==> {
            &&& ends_in_part(name)
            &&& directory.len() > 0 && directory[0] != '/' && directory[0] != '\\' ==> ends_in_part(
                directory + seq!['/'] + name,
            )
        },
    decreases name.len(),
{
    reveal_strlit(".");
    assert("."@ =~= seq!['.']);
    let path = directory + seq!['/'] + name;
    if name.len() == 0 {
        assert(path.last() == '/');
        assert(behind_slash(path) =~= name);
        assert(behind_slash(name) =~= name);
    } else {
        let fewer = name.drop_last();
        assert(!fewer.contains('/')) by {
            if fewer.contains('/') {
                let i = choose|i: int| 0 <= i < fewer.len() && fewer[i] == '/';
                assert(name[i] == '/');
            }
        }
        lemma_behind(directory, fewer);
        assert(path.drop_last() =~= directory + seq!['/'] + fewer);
        assert(path.last() == name.last());
        assert(name.contains(name.last()));
        assert(fewer.push(name.last()) =~= name);
        if !name.contains('\\') {
            assert(name.contains(name[0]));
            if name.len() > 1 {
                assert(name.contains(name[1]));
            }
        }
    }
}

proof fn lemma_behind(directory: Seq<char>, name: Seq<char>)
    requires
        !name.contains('/'),
    ensures
        behind_slash(directory + seq!['/'] + name) == name,
        behind_slash(name) == name,
    decreases name.len(),
{
    let path = directory + seq!['/'] + name;
    if name.len() == 0 {
        assert(path.last() == '/');
        assert(behind_slash(path) =~= name);
        assert(behind_slash(name) =~= name);
    } else {
        let fewer = name.drop_last();
        assert(!fewer.contains('/')) by {
            if fewer.contains('/') {
                let i = choose|i: int| 0 <= i < fewer.len() && fewer[i] == '/';
                assert(name[i] == '/');
            }
        }
        lemma_behind(directory, fewer);
        assert(path.drop_last() =~= directory + seq!['/'] + fewer);
        assert(path.last() == name.last());
        assert(name.contains(name.last()));
        assert(fewer.push(name.last()) =~= name);
    }
}

/// `Path::file_name`: the last part of the path, or `None` where that is the `..` for the
/// directory above. Of a path that does not plainly end in a part, nothing is said: what
/// separates the parts there depends on the system.
#[verifier::external_body]
pub(crate) fn file_name(path: &str) -> (name: Option<String>)
    ensures
        ends_in_part(path@) ==> match name {
            Some(n) => behind_slash(path@) != ".."@ && n@ == behind_slash(path@),
            None => behind_slash(path@) == ".."@,
        },
{
    Path::new(path).file_name().and_then(|n| n.to_str()).map(|n| n.to_owned())
}

/// The events that the extraction of the archive `path` begins and that it has ended. They
/// name the archive by `name`, its file name, or by its path where it has none.
pub fn extraction_events(path: &str, name: &Option<String>) -> (events: (UiEvent, UiEvent))
    ensures
        ({
            let shown = match name {
                Some(n) => n@,
                None => path@,
            };
            &&& events.0 matches UiEvent::DownloadExtracting(f) && f@ == shown
            &&& events.1 matches UiEvent::DownloadExtracted(f) && f@ == shown
        }),
{
    let shown = match name {
        Some(n) => n.as_str(),
        None => path,
    };
    (
        UiEvent::DownloadExtracting(shown.to_owned()),
        UiEvent::DownloadExtracted(shown.to_owned()),
    )
}

/// The events that the extraction of the archive `path` begins and that it has ended.
pub fn archive_events(path: &str) -> (events: (UiEvent, UiEvent))
    ensures
        ends_in_part(path@) ==> ({
            let part = behind_slash(path@);
            let shown = if part == ".."@ {
                path@
            } else {
                part
            };
            &&& events.0 matches UiEvent::DownloadExtracting(f) && f@ == shown
            &&& events.1 matches UiEvent::DownloadExtracted(f) && f@ == shown
        }),
        events.0 matches UiEvent::DownloadExtracting(f) && (events.1 matches
            UiEvent::DownloadExtracted(g) && f@ == g@),
{
    let name = file_name(path);
    extraction_events(path, &name)
}

/// The path that the content of the archive `filename` goes to.
pub fn extracted_path(filename: &str) -> (r: Result<String, AircError>)
    ensures
        if ZIP_EXTENSION@.is_suffix_of(filename@) {
            r matches Ok(s) && s@ == filename@.take(filename@.len() - ZIP_EXTENSION@.len())
        } else {
            r matches Err(e) && e.says("Filename doesn't end with "@ + ZIP_EXTENSION@)
        },
{
    match strip_suffix(filename, ZIP_EXTENSION) {
        Some(path) => Ok(path.to_owned()),
        None => Err(AircError::from(glue2("Filename doesn't end with ", ZIP_EXTENSION))),
    }
}

/// A step of the extraction of an archive.
#[derive(Debug, Clone, Copy, PartialEq, Eq, Structural)]
pub enum ZipStep {
    Open,
    Read,
    First,
    Create,
    Extract,
}

/// The sentence for a step that failed on the file `path` for the reason `why`.
pub open spec fn zip_failure(step: ZipStep, path: Seq<char>, why: Seq<char>) -> Seq<char> {
    match step {
        ZipStep::Open => "Failed to open zip file '"@ + path + "': "@ + why,
        ZipStep::Read => "Failed to read zip archive '"@ + path + "': "@ + why,
        ZipStep::First => "Failed to access first file in archive: "@ + why,
        ZipStep::Create => "Failed to create output file '"@ + path + "': "@ + why,
        ZipStep::Extract => "Failed to extract file: "@ + why,
    }
}

/// The sentence for a step that failed ends with the reason, and where it is about opening,
/// reading or creating a file it names the file.
pub proof fn law_zip_failures_name_the_reason(step: ZipStep, path: Seq<char>, why: Seq<char>)
    ensures
        "Failed to "@.is_prefix_of(zip_failure(step, path, why)),
        (": "@ + why).is_suffix_of(zip_failure(step, path, why)),
        ("Failed to open zip file '"@ + path + "': "@ + why) == zip_failure(
            ZipStep::Open,
            path,
            why,
        ),
        ("Failed to read zip archive '"@ + path + "': "@ + why) == zip_failure(
            ZipStep::Read,
            path,
            why,
        ),
        ("Failed to access first file in archive: "@ + why) == zip_failure(
            ZipStep::First,
            path,
            why,
        ),
        ("Failed to create output file '"@ + path + "': "@ + why) == zip_failure(
            ZipStep::Create,
            path,
            why,
        ),
        ("Failed to extract file: "@ + why) == zip_failure(ZipStep::Extract, path, why),
        step == ZipStep::Open || step == ZipStep::Read || step == ZipStep::Create ==> ("'"@ + path
            + "': "@ + why).is_suffix_of(zip_failure(step, path, why)),
{
    reveal_strlit("Failed to ");
    reveal_strlit(": ");
    reveal_strlit("'");
    reveal_strlit("': ");
    reveal_strlit("Failed to open zip file '");
    reveal_strlit("Failed to read zip archive '");
    reveal_strlit("Failed to access first file in archive: ");
    reveal_strlit("Failed to create output file '");
    reveal_strlit("Failed to extract file: ");
    let s = zip_failure(step, path, why);
    assert(s.subrange(0, 10) =~= "Failed to "@);
    let tail = ": "@ + why;
    assert(s.subrange(s.len() - tail.len(), s.len() as int) =~= tail);
    if step == ZipStep::Open || step == ZipStep::Read || step == ZipStep::Create {
        let named = "'"@ + path + "': "@ + why;
        assert(s.subrange(s.len() - named.len(), s.len() as int) =~= named);
    }
}

/// The error for a step that failed on the file `path` for the reason `why`.
pub fn zip_error(step: ZipStep, path: &str, why: &str) -> (e: AircError)
    ensures
        e.says(zip_failure(step, path@, why@)),
{
    AircError::from(
        match step {
            ZipStep::Open => glue4("Failed to open zip file '", path, "': ", why),
            ZipStep::Read => glue4("Failed to read zip archive '", path, "': ", why),
            ZipStep::First => glue2("Failed to access first file in archive: ", why),
            ZipStep::Create => glue4("Failed to create output file '", path, "': ", why),
            ZipStep::Extract => glue2("Failed to extract file: ", why),
        },
    )
}

/// The first line of `s`, without its end.
pub open spec fn first_line(s: Seq<char>) -> Seq<char> {
    let line = text::until(s, '\n');
    if line.len() < s.len() && line.len() > 0 && line.last() == '\r' {
        line.drop_last()
    } else {
        line
    }
}

/// The lines of `s`: each ends at a line feed, which may stand behind a carriage return;
/// the last one may lack it.
pub open spec fn lines(s: Seq<char>) -> Seq<Seq<char>>
    decreases s.len(),
{
    if s.len() == 0 {
        seq![]
    } else {
        let n = text::until(s, '\n').len() as int;
        if n < s.len() {
            seq![first_line(s)] + lines(s.skip(n + 1))
        } else {
            seq![first_line(s)]
        }
    }
}

/// The lines of `contents`.
pub fn split_lines(contents: &str) -> (list: Vec<String>)
    ensures
        text::views(list@) == lines(contents@),
{
    let chars = chars_of(contents);
    let total: usize = chars.len();
    let mut list: Vec<String> = Vec::new();
    let mut i: usize = 0;
    assert(contents@.skip(0) =~= contents@);
    assert(text::views(list@) + lines(contents@) =~= lines(contents@));
    while i < total
        invariant
            total == chars@.len(),
            chars@ == contents@,
            i <= total,
            text::views(list@) + lines(contents@.skip(i as int)) == lines(contents@),
        decreases total - i,
    {
        let ghost rest = contents@.skip(i as int);
        let mut n: usize = i;
        while n < total && chars[n] != '\n'
            invariant
                total == chars@.len(),
                chars@ == contents@,
                rest == contents@.skip(i as int),
                i <= n <= total,
                forall|j: int| 0 <= j < n - i ==> rest[j] != '\n',
            decreases total - n,
        {
            assert(rest[n - i] == chars@[n as int]);
            n = n + 1;
        }
        proof {
            if n < total {
                assert(rest[n - i] == chars@[n as int]);
            }
            text::lemma_until_is(rest, '\n', n - i);
        }
        let end: usize = if n < total && n > i && chars[n - 1] == '\r' {
            n - 1
        } else {
            n
        };
        let ghost known = list@;
        let line = string_of(&chars, i, end);
        proof {
            assert(rest.take(n - i) =~= contents@.subrange(i as int, n as int));
            assert(line@ =~= first_line(rest));
        }
        list.push(line);
        let next: usize = if n < total {
            n + 1
        } else {
            n
        };
        proof {
            assert(text::views(list@) =~= text::views(known) + seq![line@]);
            if n < total {
                assert(rest.skip(n - i + 1) =~= contents@.skip(next as int));
            } else {
                assert(lines(contents@.skip(next as int)) =~= seq![]);
            }
            assert(text::views(list@) + lines(contents@.skip(next as int)) =~= text::views(known)
                + lines(rest));
        }
        i = next;
    }
    assert(lines(contents@.skip(i as int)) =~= seq![]);
    assert(text::views(list@) + lines(contents@.skip(i as int)) =~= text::views(list@));
    list
}

/// A file is read line by line, each line whole: what stands before a line feed, without the
/// carriage return that may belong to it, is the first line, and the lines of the rest
/// follow. What stands behind the last line feed is a line too, if there is anything.
pub proof fn law_lines_are_whole(line: Seq<char>, rest: Seq<char>)
    requires
        !line.contains('\n'),
    ensures
        lines(line + seq!['\r', '\n'] + rest) == seq![line] + lines(rest),
        line.len() == 0 || line.last() != '\r' ==> lines(line + seq!['\n'] + rest) == seq![line]
            + lines(rest),
        line.len() > 0 ==> lines(line) == seq![line],
        lines(Seq::empty()).len() == 0,
{
    let ended = line + seq!['\n'] + rest;
    text::law_until(line, '\n', rest);
    assert(ended.skip(line.len() as int + 1) =~= rest);
    let returned = line.push('\r');
    assert(!returned.contains('\n')) by {
        if returned.contains('\n') {
            let i = choose|i: int| 0 <= i < returned.len() && returned[i] == '\n';
            assert(line[i] == '\n');
        }
    }
    text::law_until(returned, '\n', rest);
    let both = line + seq!['\r', '\n'] + rest;
    assert(both =~= returned + seq!['\n'] + rest);
    assert(both.skip(returned.len() as int + 1) =~= rest);
    assert(returned.drop_last() =~= line);
}

/// The first of the texts with the first of the ends behind it, and so on.
pub open spec fn rejoined(texts: Seq<Seq<char>>, ends: Seq<Seq<char>>) -> Seq<char>
    decreases texts.len(),
{
    if texts.len() == 0 {
        seq![]
    } else {
        texts[0] + ends[0] + rejoined(texts.drop_first(), ends.drop_first())
    }
}

/// Reading line by line loses nothing: the lines, each with its end behind it, are the text
/// again. An end is a line feed, or one with a carriage return before it; only the last line
/// may have none.
pub proof fn law_lines_lose_nothing(s: Seq<char>) -> (ends: Seq<Seq<char>>)
    ensures
        ends.len() == lines(s).len(),
        rejoined(lines(s), ends) == s,
        forall|i: int|
            0 <= i < ends.len() ==> {
                ||| (#[trigger] ends[i]) == seq!['\n']
                ||| ends[i] == seq!['\r', '\n']
                ||| i == ends.len() - 1 && ends[i].len() == 0
            },
    decreases s.len(),
{
    if s.len() == 0 {
        seq![]
    } else {
        let line = text::until(s, '\n');
        let feed = '\n';
        text::lemma_until(s, feed);
        let n = line.len() as int;
        if n < s.len() {
            let rest = s.skip(n + 1);
            let more = law_lines_lose_nothing(rest);
            let end = if first_line(s).len() < n {
                seq!['\r', '\n']
            } else {
                seq!['\n']
            };
            let ends = seq![end] + more;
            assert(lines(s).drop_first() =~= lines(rest));
            assert(ends.drop_first() =~= more);
            assert(s =~= first_line(s) + end + rest);
            assert forall|i: int| 0 <= i < ends.len() implies {
                ||| (#[trigger] ends[i]) == seq!['\n']
                ||| ends[i] == seq!['\r', '\n']
                ||| i == ends.len() - 1 && ends[i].len() == 0
            } by {
                if i > 0 {
                    assert(ends[i] == more[i - 1]);
                }
            }
            ends
        } else {
            let none = Seq::<char>::empty();
            let ends = seq![none];
            assert(lines(s).drop_first() =~= seq![]);
            assert(s =~= line);
            assert(s =~= first_line(s) + none + rejoined(lines(s).drop_first(), ends.drop_first()));
            ends
        }
    }
}

/// No line holds a line feed.
pub proof fn law_lines_hold_no_line_feed(s: Seq<char>)
    ensures
        forall|i: int| 0 <= i < lines(s).len() ==> !(#[trigger] lines(s)[i]).contains('\n'),
    decreases s.len(),
{
    if s.len() > 0 {
        let line = text::until(s, '\n');
        text::lemma_until(s, '\n');
        assert(!first_line(s).contains('\n')) by {
            if first_line(s).contains('\n') {
                let k = choose|k: int| 0 <= k < first_line(s).len() && first_line(s)[k] == '\n';
                assert(line[k] == s[k]);
            }
        }
        if line.len() < s.len() {
            let rest = s.skip(line.len() as int + 1);
            law_lines_hold_no_line_feed(rest);
            assert forall|i: int| 0 <= i < lines(s).len() implies !(
            #[trigger] lines(s)[i]).contains('\n') by {
                if i > 0 {
                    assert(lines(s)[i] == lines(rest)[i - 1]);
                }
            }
        }
    }
}

/// An offer is its name, address, port and size, and whether the name was quoted.
pub proof fn law_offers_hold_what_was_read(o: DccOffer)
    ensures
        offer_text(Some(o)) == Some(
            pattern::OfferText {
                quoted: o.quoted,
                filename: o.filename@,
                ip: o.ip@,
                port: o.port@,
                size: o.size@,
            },
        ),
        offer_text(None) is None,
{
}

}
