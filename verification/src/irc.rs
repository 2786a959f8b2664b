//! The lines of the IRC protocol: those that come from the server and those that go to it.
use vstd::prelude::*;

use crate::commands;
use crate::commands::farewell_of;
use crate::dcc::some_text;
use crate::error::AircError;
use crate::number;
use crate::number::parse_unsigned;
use crate::pattern;
use crate::pattern::captures;
use crate::text;
use crate::text::{
    contains, glue2, glue4, replace, same, split, split_whitespace, starts_with, strip_prefix, trim,
    trim_start_matches,
};

verus! {

/// The marks of rank that may stand before a name in a list of users.
pub const RANK_MARKS: &'static str = "@+%&~";

/// What a line from the server means.
#[derive(Debug, Clone)]
pub enum IrcMessage {
    Message(String),
    Book(String),
    User(String),
    DccSend { filename: String, ip: String, port: String, size: u32 },
    Ping(String),
    UserList(Vec<String>),
    Connected,
    Disconnected,
}

/// A file that a line offers.
#[derive(Debug, Clone)]
pub struct DccInfo {
    pub filename: String,
    pub ip: String,
    pub port: String,
    pub size: u32,
}

/// Whether `r` is what becomes of the offer that was found, if any: the offer with its size
/// as a number, or the error where the size is out of range.
pub open spec fn offer_result(
    found: Option<pattern::OfferText>,
    r: Result<Option<DccInfo>, AircError>,
) -> bool {
    match found {
        None => r matches Ok(None),
        Some(offer) => match number::parsed(offer.size, u32::MAX as nat) {
            Ok(n) => {
                &&& r matches Ok(Some(info))
                &&& info.filename@ == offer.filename
                &&& info.ip@ == offer.ip
                &&& info.port@ == offer.port
                &&& info.size == n
            },
            Err(why) => r matches Err(AircError::Protocol(s)) && s@ == "Invalid DCC size: "@
                + why.text(),
        },
    }
}

/// The file that `line` offers in upper case under a name without a space, if any.
pub fn parse_dcc_send(line: &str) -> (r: Result<Option<DccInfo>, AircError>)
    ensures
        exists|found: Option<pattern::OfferText>|
            pattern::finds(line@, pattern::strict_offers(line@), found) && #[trigger] offer_result(
                found,
                r,
            ),
{
    let groups = captures(pattern::DCC_BARE_PATTERN, line);
    let ghost found = pattern::bare_offer_of(pattern::groups_view(groups));
    match groups {
        Some(list) => {
            let size_text = some_text(&list[4]);
            match parse_unsigned(size_text.as_str(), u32::MAX as u64) {
                Ok(n) => {
                    proof {
                        number::law_parsed_value(size_text@, u32::MAX as nat);
                    }
                    let r: Result<Option<DccInfo>, AircError> = Ok(
                        Some(
                            DccInfo {
                                filename: some_text(&list[1]),
                                ip: some_text(&list[2]),
                                port: some_text(&list[3]),
                                size: n as u32,
                            },
                        ),
                    );
                    assert(offer_result(found, r));
                    r
                },
                Err(why) => {
                    let r: Result<Option<DccInfo>, AircError> = Err(
                        AircError::Protocol(
                            glue2("Invalid DCC size: ", why.message().as_str()),
                        ),
                    );
                    assert(offer_result(found, r));
                    r
                },
            }
        },
        None => {
            let r: Result<Option<DccInfo>, AircError> = Ok(None);
            assert(offer_result(found, r));
            r
        },
    }
}

/// The names in a list of users, without the marks of rank.
pub open spec fn bare_names(list: Seq<char>) -> Seq<Seq<char>> {
    text::words(list).map_values(|name: Seq<char>| text::left_stripped(name, RANK_MARKS@))
}

/// The names in a list of users, without the marks of rank.
pub fn names_in(list: &str) -> (names: Vec<String>)
    ensures
        text::views(names@) == bare_names(list@),
{
    let words = split_whitespace(list);
    let mut names: Vec<String> = Vec::new();
    let mut i: usize = 0;
    while i < words.len()
        invariant
            text::views(words@) == text::words(list@),
            i <= words@.len(),
            text::views(names@) == bare_names(list@).take(i as int),
        decreases words@.len() - i,
    {
        let ghost known = text::views(names@);
        let name = trim_start_matches(words[i].as_str(), RANK_MARKS).to_owned();
        names.push(name);
        proof {
            assert(text::words(list@)[i as int] == words@[i as int]@);
            assert(text::views(names@) =~= known.push(name@));
            assert(bare_names(list@).take(i + 1) =~= bare_names(list@).take(i as int).push(name@));
        }
        i = i + 1;
    }
    assert(bare_names(list@).take(i as int) =~= bare_names(list@));
    names
}

/// Whether `r` is what the line `t`, without white space around it, means: a ping with its
/// answer, a list of users, a file that is offered, an entry of a search or any other line.
/// A list without names and words of an offer without one mean nothing.
pub open spec fn meaning(t: Seq<char>, r: Result<Option<IrcMessage>, AircError>) -> bool {
    if "PING"@.is_prefix_of(t) {
        r matches Ok(Some(IrcMessage::Ping(pong))) && pong@ == text::replaced(t, "PING"@, "PONG"@)
    } else if text::occurs(t, "353"@) {
        let parts = text::fields(t, ':');
        if parts.len() > 2 {
            r matches Ok(Some(IrcMessage::UserList(users))) && text::views(users@) == bare_names(
                parts[2],
            )
        } else {
            r matches Ok(None)
        }
    } else if text::occurs(t, "DCC SEND"@) {
        exists|info: Result<Option<DccInfo>, AircError>| #[trigger]
            offered(t, info) && match info {
                Ok(Some(i)) => r == Ok::<Option<IrcMessage>, AircError>(
                    Some(
                        IrcMessage::DccSend {
                            filename: i.filename,
                            ip: i.ip,
                            port: i.port,
                            size: i.size,
                        },
                    ),
                ),
                Ok(None) => r matches Ok(None),
                Err(e) => r == Err::<Option<IrcMessage>, AircError>(e),
            }
    } else if text::occurs(t, "PRIVMSG"@) && text::occurs(t, "!"@) {
        r matches Ok(Some(IrcMessage::Book(book))) && book@ == t
    } else {
        r matches Ok(Some(IrcMessage::Message(message))) && message@ == "RX: "@ + t
    }
}

/// Whether `info` is what becomes of the offer in the line `t`.
pub open spec fn offered(t: Seq<char>, info: Result<Option<DccInfo>, AircError>) -> bool {
    exists|found: Option<pattern::OfferText>|
        pattern::finds(t, pattern::strict_offers(t), found) && #[trigger] offer_result(found, info)
}

/// What a line from the server means; `None` where there is nothing to pass on.
pub fn process_irc_message(line: &str) -> (r: Result<Option<IrcMessage>, AircError>)
    ensures
        meaning(text::trimmed(line@), r),
{
    let trimmed = trim(line);
    if starts_with(trimmed, "PING") {
        proof {
            reveal_strlit("PING");
        }
        let pong = replace(trimmed, "PING", "PONG");
        return Ok(Some(IrcMessage::Ping(pong)));
    }
    if contains(trimmed, "353") {
        let parts = split(trimmed, ':');
        assert(parts@.len() == text::fields(trimmed@, ':').len()) by {
            assert(text::views(parts@).len() == parts@.len());
        }
        if parts.len() > 2 {
            assert(text::views(parts@)[2] == parts@[2]@);
            let users = names_in(parts[2].as_str());
            return Ok(Some(IrcMessage::UserList(users)));
        }
        return Ok(None);
    }
    if contains(trimmed, "DCC SEND") {
        let info = parse_dcc_send(trimmed);
        assert(offered(trimmed@, info));
        return match info {
            Ok(Some(i)) => Ok(
                Some(
                    IrcMessage::DccSend {
                        filename: i.filename,
                        ip: i.ip,
                        port: i.port,
                        size: i.size,
                    },
                ),
            ),
            Ok(None) => Ok(None),
            Err(e) => Err(e),
        };
    }
    if contains(trimmed, "PRIVMSG") && contains(trimmed, "!") {
        return Ok(Some(IrcMessage::Book(trimmed.to_owned())));
    }
    Ok(Some(IrcMessage::Message(glue2("RX: ", trimmed))))
}

/// The term behind `/s ` or `/search `, or nothing.
pub open spec fn typed_term(input: Seq<char>) -> Seq<char> {
    if "/s "@.is_prefix_of(input) {
        input.skip(3)
    } else if "/search "@.is_prefix_of(input) {
        input.skip(8)
    } else {
        seq![]
    }
}

/// The channel that a command to join names behind its first word, else `channel`.
pub open spec fn channel_to_join(input: Seq<char>, channel: Seq<char>) -> Seq<char> {
    let named = text::trimmed(input.skip(text::until_space(input).len() as int));
    if named.len() > 0 {
        named
    } else {
        channel
    }
}

/// The line of the protocol for what the user has typed: a command behind a slash, else a
/// message to the channel.
pub open spec fn input_line(input: Seq<char>, channel: Seq<char>) -> Seq<char> {
    if input.len() > 0 && input[0] == '/' {
        let word = text::until_space(input);
        if word == "/join"@ || word == "/j"@ {
            "JOIN "@ + channel_to_join(input, channel)
        } else if word == "/quit"@ || word == "/q"@ {
            if commands::farewell(input).len() == 0 {
                "QUIT"@
            } else {
                "QUIT :"@ + commands::farewell(input)
            }
        } else if word == "/s"@ || word == "/search"@ {
            "PRIVMSG "@ + channel + " :@search "@ + typed_term(input)
        } else {
            input.drop_first()
        }
    } else {
        "PRIVMSG "@ + channel + " :"@ + input
    }
}

/// The line of the protocol for what the user has typed.
pub fn process_user_input(input: &str, channel: &str) -> (line: String)
    ensures
        line@ == input_line(input@, channel@),
{
    if !starts_with(input, "/") {
        proof {
            reveal_strlit("/");
            if input@.len() > 0 && input@[0] == '/' {
                assert(input@.subrange(0, 1) =~= "/"@);
            }
        }
        return glue4("PRIVMSG ", channel, " :", input);
    }
    proof {
        reveal_strlit("/");
        assert(input@[0] == "/"@[0]);
        text::lemma_until_space(input@);
    }
    let words = split_whitespace(input);
    assert(text::views(words@)[0] == text::until_space(input@));
    assert(text::views(words@).len() == words@.len());
    let word = words[0].as_str();
    if same(word, "/join") || same(word, "/j") {
        let rest = match strip_prefix(input, word) {
            Some(rest) => rest,
            None => input,
        };
        let named = trim(rest);
        if named.is_empty() {
            return glue2("JOIN ", channel);
        }
        return glue2("JOIN ", named);
    }
    if same(word, "/quit") || same(word, "/q") {
        let message = farewell_of(input);
        if message.is_empty() {
            return "QUIT".to_owned();
        }
        return glue2("QUIT :", message);
    }
    if same(word, "/s") || same(word, "/search") {
        proof {
            reveal_strlit("/s ");
            reveal_strlit("/search ");
            reveal_strlit("");
        }
        let term = match strip_prefix(input, "/s ") {
            Some(rest) => rest,
            None => match strip_prefix(input, "/search ") {
                Some(rest) => rest,
                None => "",
            },
        };
        assert(term@ =~= typed_term(input@));
        return glue4("PRIVMSG ", channel, " :@search ", term);
    }
    match strip_prefix(input, "/") {
        Some(rest) => {
            assert(rest@ =~= input@.drop_first());
            rest.to_owned()
        },
        None => input.to_owned(),
    }
}

/// A line for the server: `message` and the end of a line.
pub fn raw_line(message: &str) -> (line: String)
    ensures
        line@ == message@ + "\r\n"@,
{
    glue2(message, "\r\n")
}

pub fn join_message(channel: &str) -> (message: String)
    ensures
        message@ == "JOIN "@ + channel@,
{
    glue2("JOIN ", channel)
}

pub fn channel_message(channel: &str, message: &str) -> (r: String)
    ensures
        r@ == "PRIVMSG "@ + channel@ + " :"@ + message@,
{
    glue4("PRIVMSG ", channel, " :", message)
}

pub fn search_message(channel: &str, query: &str) -> (message: String)
    ensures
        message@ == "PRIVMSG "@ + channel@ + " :@search "@ + query@,
{
    glue4("PRIVMSG ", channel, " :@search ", query)
}

/// The messages that register the client with the server.
pub fn registration(username: &str, nickname: &str, server: &str, realname: &str) -> (messages:
    Vec<String>)
    ensures
        text::views(messages@) == seq![
            "CAP LS"@,
            "NICK "@ + nickname@,
            "USER "@ + username@ + " "@ + nickname@ + " "@ + server@ + " :"@ + realname@,
        ],
{
    let mut user = glue4("USER ", username, " ", nickname);
    user.append(" ");
    user.append(server);
    user.append(" :");
    user.append(realname);
    let mut messages: Vec<String> = Vec::new();
    messages.push("CAP LS".to_owned());
    messages.push(glue2("NICK ", nickname));
    messages.push(user);
    assert(text::views(messages@) =~= seq![
        "CAP LS"@,
        "NICK "@ + nickname@,
        "USER "@ + username@ + " "@ + nickname@ + " "@ + server@ + " :"@ + realname@,
    ]);
    messages
}

/// Whether no line goes to the server behind `message`.
pub fn is_last_message(message: &str) -> (yes: bool)
    ensures
        yes == "QUIT"@.is_prefix_of(message@),
{
    starts_with(message, "QUIT")
}

/// A ping is answered with its own words.
pub proof fn law_ping_is_answered(token: Seq<char>)
    requires
        !text::occurs(token, "PING"@),
    ensures
        text::replaced("PING"@ + token, "PING"@, "PONG"@) == "PONG"@ + token,
{
    reveal_strlit("PING");
    let s = "PING"@ + token;
    assert(s.subrange(0, 4) =~= "PING"@);
    assert(s.skip(4) =~= token);
    lemma_not_replaced(token);
}

proof fn lemma_not_replaced(s: Seq<char>)
    requires
        !text::occurs(s, "PING"@),
    ensures
        text::replaced(s, "PING"@, "PONG"@) == s,
    decreases s.len(),
{
    reveal_strlit("PING");
    if s.len() > 0 {
        if "PING"@.is_prefix_of(s) {
            assert(text::occurs_at(s, "PING"@, 0));
        }
        let rest = s.drop_first();
        if text::occurs(rest, "PING"@) {
            let i = choose|i: int| text::occurs_at(rest, "PING"@, i);
            assert(rest.subrange(i, i + 4) =~= s.subrange(i + 1, i + 5));
            assert(text::occurs_at(s, "PING"@, i + 1));
        }
        lemma_not_replaced(rest);
        assert(seq![s[0]] + rest =~= s);
    }
}

/// A ping is answered with a pong that carries its words, whatever they are.
pub proof fn law_pings_are_answered_in_kind(
    token: Seq<char>,
    r: Result<Option<IrcMessage>, AircError>,
)
    requires
        !text::occurs(token, "PING"@),
        meaning("PING"@ + token, r),
    ensures
        r matches Ok(Some(IrcMessage::Ping(pong))) && pong@ == "PONG"@ + token,
{
    reveal_strlit("PING");
    law_ping_is_answered(token);
    let t = "PING"@ + token;
    assert(t.subrange(0, 4) =~= "PING"@);
}

/// The names in a list of users are its words, each without the marks of rank before it.
pub proof fn law_names_lose_their_marks(
    marks: Seq<char>,
    name: Seq<char>,
    gap: Seq<char>,
    rest: Seq<char>,
)
    requires
        forall|i: int|
            0 <= i < marks.len() ==> (#[trigger] marks[i]) == '@' || marks[i] == '+' || marks[i] == '%'
                || marks[i] == '&' || marks[i] == '~',
        name.len() > 0,
        forall|i: int| 0 <= i < name.len() ==> !text::is_space(#[trigger] name[i]),
        name[0] != '@' && name[0] != '+' && name[0] != '%' && name[0] != '&' && name[0] != '~',
        forall|i: int| 0 <= i < gap.len() ==> text::is_space(#[trigger] gap[i]),
    ensures
        bare_names(marks + name) == seq![name],
        gap.len() > 0 ==> bare_names(marks + name + gap + rest) == seq![name] + bare_names(rest),
        bare_names(gap + rest) == bare_names(rest),
        bare_names(Seq::empty()).len() == 0,
{
    reveal_strlit("@+%&~");
    let set = RANK_MARKS@;
    assert(set[0] == '@' && set[1] == '+' && set[2] == '%' && set[3] == '&' && set[4] == '~');
    assert(set.len() == 5);
    assert forall|c: char| #[trigger] set.contains(c) <==> (c == '@' || c == '+' || c == '%' || c
        == '&' || c == '~') by {
        assert(set[0] == '@');
    }
    let word = marks + name;
    assert forall|i: int| 0 <= i < word.len() implies !text::is_space(#[trigger] word[i]) by {
        if i < marks.len() {
            assert(word[i] == marks[i]);
        } else {
            assert(word[i] == name[i - marks.len()]);
        }
    }
    text::law_words(word, gap, rest);
    lemma_stripped(marks, name, set);
    assert(marks + name + gap + rest =~= word + (gap + rest));
    assert(bare_names(word) =~= seq![name]);
    if gap.len() > 0 {
        assert(bare_names(word + (gap + rest)) =~= seq![name] + bare_names(rest));
    }
}

proof fn lemma_stripped(marks: Seq<char>, name: Seq<char>, set: Seq<char>)
    requires
        forall|i: int| 0 <= i < marks.len() ==> set.contains(#[trigger] marks[i]),
        name.len() > 0,
        !set.contains(name[0]),
    ensures
        text::left_stripped(marks + name, set) == name,
    decreases marks.len(),
{
    let s = marks + name;
    if marks.len() == 0 {
        assert(s =~= name);
    } else {
        assert(set.contains(marks[0]));
        let fewer = marks.drop_first();
        assert forall|i: int| 0 <= i < fewer.len() implies set.contains(#[trigger] fewer[i]) by {
            assert(fewer[i] == marks[i + 1]);
        }
        lemma_stripped(fewer, name, set);
        assert(s.drop_first() =~= fewer + name);
    }
}

/// A reply with the number of a list of users lists the names between its second colon and
/// the third, if there is one; without a second colon it means nothing.
pub proof fn law_replies_list_the_users(
    head: Seq<char>,
    middle: Seq<char>,
    names: Seq<char>,
    tail: Seq<char>,
    r: Result<Option<IrcMessage>, AircError>,
    short: Result<Option<IrcMessage>, AircError>,
)
    requires
        !head.contains(':'),
        !middle.contains(':'),
        !names.contains(':'),
        tail.len() > 0 ==> tail[0] == ':',
        !"PING"@.is_prefix_of(head + seq![':'] + middle + seq![':'] + names + tail),
        text::occurs(head + seq![':'] + middle + seq![':'] + names + tail, "353"@),
        meaning(head + seq![':'] + middle + seq![':'] + names + tail, r),
        !"PING"@.is_prefix_of(head + seq![':'] + middle),
        text::occurs(head + seq![':'] + middle, "353"@),
        meaning(head + seq![':'] + middle, short),
    ensures
        r matches Ok(Some(IrcMessage::UserList(users))) && text::views(users@) == bare_names(names),
        short matches Ok(None),
{
    let line = head + seq![':'] + middle + seq![':'] + names + tail;
    let rest = names + tail;
    let behind = middle + seq![':'] + rest;
    text::law_fields(head, ':', behind);
    text::law_fields(middle, ':', rest);
    assert(line =~= head + seq![':'] + behind);
    if tail.len() > 0 {
        text::law_fields(names, ':', tail.drop_first());
        assert(rest =~= names + seq![':'] + tail.drop_first());
    } else {
        text::law_fields(names, ':', seq![]);
        assert(rest =~= names);
    }
    assert(text::fields(line, ':')[2] == names);
    assert(text::fields(line, ':').len() > 2);
    text::law_fields(head, ':', middle);
    assert(text::fields(head + seq![':'] + middle, ':').len() == 2);
}

/// A line that holds neither a ping, nor a list of users, nor an offer is an entry of a
/// search where it is a message of someone, and shown as it is otherwise.
pub proof fn law_other_lines_are_passed_on(
    t: Seq<char>,
    r: Result<Option<IrcMessage>, AircError>,
)
    requires
        meaning(t, r),
        !"PING"@.is_prefix_of(t),
        !text::occurs(t, "353"@),
        !text::occurs(t, "DCC SEND"@),
    ensures
        text::occurs(t, "PRIVMSG"@) && t.contains('!') ==> (r matches Ok(
            Some(IrcMessage::Book(book)),
        ) && book@ == t),
        !(text::occurs(t, "PRIVMSG"@) && t.contains('!')) ==> (r matches Ok(
            Some(IrcMessage::Message(message)),
        ) && message@ == "RX: "@ + t),
{
    reveal_strlit("!");
    if t.contains('!') {
        let i = choose|i: int| 0 <= i < t.len() && t[i] == '!';
        assert(t.subrange(i, i + 1) =~= "!"@);
        assert(text::occurs_at(t, "!"@, i));
    }
    if text::occurs(t, "!"@) {
        let i = choose|i: int| text::occurs_at(t, "!"@, i);
        assert(t[i] == t.subrange(i, i + 1)[0]);
    }
}

/// A file offered in upper case under a name without a space is passed on with the name,
/// address, port and size that the line states.
pub proof fn law_offers_are_passed_on(
    head: Seq<char>,
    name: Seq<char>,
    ip: Seq<char>,
    port: Seq<char>,
    size: Seq<char>,
    r: Result<Option<DccInfo>, AircError>,
)
    requires
        !head.contains('\n'),
        name.len() > 0,
        !name.contains(' '),
        ip.len() > 0 && (forall|i: int| 0 <= i < ip.len() ==> '0' <= #[trigger] ip[i] <= '9'),
        port.len() > 0 && (forall|i: int| 0 <= i < port.len() ==> '0' <= #[trigger] port[i] <= '9'),
        size.len() > 0 && (forall|i: int| 0 <= i < size.len() ==> '0' <= #[trigger] size[i] <= '9'),
        !text::occurs(
            (head + "DCC SEND "@ + name + seq![' '] + ip + seq![' '] + port + seq![' '] + size).skip(
                head.len() as int + 1,
            ),
            "DCC SEND "@,
        ),
        offered(
            head + "DCC SEND "@ + name + seq![' '] + ip + seq![' '] + port + seq![' '] + size,
            r,
        ),
    ensures
        number::digits_value(size) <= u32::MAX ==> {
            &&& r matches Ok(Some(info))
            &&& info.filename@ == name
            &&& info.ip@ == ip
            &&& info.port@ == port
            &&& info.size == number::digits_value(size)
        },
        number::digits_value(size) > u32::MAX ==> r is Err,
{
    let tail = Seq::<char>::empty();
    let line = head + "DCC SEND "@ + name + seq![' '] + ip + seq![' '] + port + seq![' '] + size;
    assert(line =~= pattern::offer_line(head, "DCC SEND "@, name, ip, port, size, tail));
    assert forall|c: char| '0' <= c <= '9' implies pattern::is_decimal(c) by {
        pattern::lemma_is_decimal(c);
    }
    let at = pattern::strict_offers(line);
    let p = head.len() as int;
    assert forall|q: int| q > p && #[trigger] at(q) is Some implies pattern::broken(line, p, q) by {
        assert(text::occurs_at(line, "DCC SEND "@, q));
        let later = line.skip(p + 1);
        let n = "DCC SEND "@.len() as int;
        assert(later.subrange(q - p - 1, q - p - 1 + n) =~= line.subrange(q, q + n));
        assert(text::occurs_at(later, "DCC SEND "@, q - p - 1));
    }
    let found = choose|found: Option<pattern::OfferText>|
        pattern::finds(line, at, found) && #[trigger] offer_result(found, r);
    pattern::law_strict_offer_found(head, name, ip, port, size, tail, found);
    number::law_parsed_digits(size, u32::MAX as nat);
}

/// A line without a slash in front is a message to the channel, whole.
pub proof fn law_typed_messages_go_to_the_channel(input: Seq<char>, channel: Seq<char>)
    requires
        input.len() == 0 || input[0] != '/',
    ensures
        input_line(input, channel) == "PRIVMSG "@ + channel + " :"@ + input,
{
}

/// The commands to join, to leave and to search do what they are for, in either form, and
/// any other command is sent without its slash.
pub proof fn law_typed_commands(
    word: Seq<char>,
    rest: Seq<char>,
    channel: Seq<char>,
)
    requires
        forall|i: int| 0 <= i < word.len() ==> !text::is_space(#[trigger] word[i]),
        rest.len() > 0 ==> text::is_space(rest[0]),
    ensures
        ({
            let line = input_line(seq!['/'] + word + rest, channel);
            let joins = word == "join"@ || word == "j"@;
            let leaves = word == "quit"@ || word == "q"@;
            let searches = word == "search"@ || word == "s"@;
            &&& joins && text::trimmed(rest).len() == 0 ==> line == "JOIN "@ + channel
            &&& joins && text::trimmed(rest).len() > 0 ==> line == "JOIN "@ + text::trimmed(rest)
            &&& leaves && rest.len() <= 1 ==> line == "QUIT"@
            &&& leaves && rest.len() > 1 && rest[0] == ' ' ==> line == "QUIT :"@
                + rest.drop_first()
            &&& leaves && rest.len() > 0 && rest[0] != ' ' ==> line == "QUIT"@
            &&& searches && rest.len() > 0 && rest[0] == ' ' ==> line == "PRIVMSG "@ + channel
                + " :@search "@ + rest.drop_first()
            &&& searches && (rest.len() == 0 || rest[0] != ' ') ==> line == "PRIVMSG "@ + channel
                + " :@search "@
            &&& !joins && !leaves && !searches ==> line == word + rest
        }),
{
    reveal_strlit("/join");
    reveal_strlit("/j");
    reveal_strlit("/quit");
    reveal_strlit("/q");
    reveal_strlit("/search");
    reveal_strlit("/s");
    reveal_strlit("/quit ");
    reveal_strlit("/q ");
    reveal_strlit("/search ");
    reveal_strlit("/s ");
    reveal_strlit("join");
    reveal_strlit("j");
    reveal_strlit("quit");
    reveal_strlit("q");
    reveal_strlit("search");
    reveal_strlit("s");
    let slashed = seq!['/'] + word;
    let input = slashed + rest;
    assert(seq!['/'] + word + rest =~= input);
    assert forall|i: int| 0 <= i < slashed.len() implies !text::is_space(#[trigger] slashed[i]) by {
        if i > 0 {
            assert(slashed[i] == word[i - 1]);
        }
    }
    text::law_until_space(slashed, rest);
    assert(input.skip(slashed.len() as int) =~= rest);
    assert(slashed.drop_first() =~= word);
    assert("/join"@[1] == 'j' && "/j"@[1] == 'j' && "/quit"@[1] == 'q' && "/q"@[1] == 'q');
    assert("/search"@[1] == 's' && "/s"@[1] == 's');
    assert("/join"@ =~= seq!['/'] + "join"@ && "/j"@ =~= seq!['/'] + "j"@);
    assert("/quit"@ =~= seq!['/'] + "quit"@ && "/q"@ =~= seq!['/'] + "q"@);
    assert("/search"@ =~= seq!['/'] + "search"@ && "/s"@ =~= seq!['/'] + "s"@);
    assert("/join"@.drop_first() =~= "join"@ && "/j"@.drop_first() =~= "j"@);
    assert("/quit"@.drop_first() =~= "quit"@ && "/q"@.drop_first() =~= "q"@);
    assert("/search"@.drop_first() =~= "search"@ && "/s"@.drop_first() =~= "s"@);
    if rest.len() > 0 {
        assert(input[slashed.len() as int] == rest[0]);
        if word == "quit"@ && rest[0] == ' ' {
            assert(input.subrange(0, 6) =~= "/quit "@);
            assert(input.skip(6) =~= rest.drop_first());
        }
        if word == "q"@ && rest[0] == ' ' {
            assert(input.subrange(0, 3) =~= "/q "@);
            assert(input.skip(3) =~= rest.drop_first());
        }
        if word == "search"@ && rest[0] == ' ' {
            assert(input.subrange(0, 8) =~= "/search "@);
            assert(input.skip(8) =~= rest.drop_first());
        }
        if word == "s"@ && rest[0] == ' ' {
            assert(input.subrange(0, 3) =~= "/s "@);
            assert(input.skip(3) =~= rest.drop_first());
        }
    }
    if "/quit "@.is_prefix_of(input) {
        assert(input[5] == "/quit "@[5] && input[2] == "/quit "@[2]);
    }
    if "/q "@.is_prefix_of(input) {
        assert(input[2] == "/q "@[2]);
    }
    if "/s "@.is_prefix_of(input) {
        assert(input[2] == "/s "@[2]);
    }
    if "/search "@.is_prefix_of(input) {
        assert(input[2] == "/search "@[2] && input[7] == "/search "@[7]);
    }
    if word == "search"@ || word == "quit"@ {
        assert(input[2] == word[1]);
    }
    assert(input.drop_first() =~= word + rest);
}

/// A line with the words of an offer means the file that is offered, field by field, or the
/// error that its size is none, or nothing where there is no whole offer.
pub proof fn law_offer_lines_mean_the_offer(
    t: Seq<char>,
    r: Result<Option<IrcMessage>, AircError>,
) -> (info: Result<Option<DccInfo>, AircError>)
    requires
        meaning(t, r),
        !"PING"@.is_prefix_of(t),
        !text::occurs(t, "353"@),
        text::occurs(t, "DCC SEND"@),
    ensures
        offered(t, info),
        r is Err <==> info is Err,
        r matches Err(e) ==> (info matches Err(f) && e == f),
        info matches Ok(None) ==> r matches Ok(None),
        info matches Ok(Some(i)) ==> (r matches Ok(
            Some(IrcMessage::DccSend { filename, ip, port, size }),
        ) && filename == i.filename && ip == i.ip && port == i.port && size == i.size),
{
    choose|info: Result<Option<DccInfo>, AircError>| #[trigger]
        offered(t, info) && match info {
            Ok(Some(i)) => r == Ok::<Option<IrcMessage>, AircError>(
                Some(
                    IrcMessage::DccSend {
                        filename: i.filename,
                        ip: i.ip,
                        port: i.port,
                        size: i.size,
                    },
                ),
            ),
            Ok(None) => r matches Ok(None),
            Err(e) => r == Err::<Option<IrcMessage>, AircError>(e),
        }
}

/// What becomes of an offer that was found has its name, address and port, and its size as a
/// number, or is the error that the size is out of range; where none was found there is none.
pub proof fn law_offers_become_what_they_state(
    offer: pattern::OfferText,
    r: Result<Option<DccInfo>, AircError>,
    none: Result<Option<DccInfo>, AircError>,
)
    requires
        offer.size.len() > 0,
        forall|i: int| 0 <= i < offer.size.len() ==> '0' <= #[trigger] offer.size[i] <= '9',
        offer_result(Some(offer), r),
        offer_result(None, none),
    ensures
        number::digits_value(offer.size) <= u32::MAX ==> {
            &&& r matches Ok(Some(info))
            &&& info.filename@ == offer.filename
            &&& info.ip@ == offer.ip
            &&& info.port@ == offer.port
            &&& info.size == number::digits_value(offer.size)
        },
        number::digits_value(offer.size) > u32::MAX ==> (r matches Err(AircError::Protocol(s)) && s@
            == "Invalid DCC size: "@ + "number too large to fit in target type"@),
        none matches Ok(None),
{
    number::law_parsed_digits(offer.size, u32::MAX as nat);
}

}
