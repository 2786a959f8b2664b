//! What the client does with the lines that come from the server and the files it has got.
use vstd::prelude::*;

use crate::casing;
use crate::commands;
use crate::dcc;
use crate::dcc::{file_name, SEARCHBOT_RESULTS_PREFIX, ZIP_EXTENSION};
use crate::irc;
use crate::irc::names_in;
use crate::text;
use crate::text::{
    before_char, chars_of, contains, decode_lossy, glue2, same, space, split_whitespace,
    starts_with, string_of, strip_prefix, strip_suffix,
};
use crate::tui::UiEvent;

verus! {

/// Who has come into the channel or left it.
#[derive(Debug, Clone)]
pub enum Membership {
    Joined(String),
    Left(String),
}

/// The names that are not empty.
pub open spec fn real_names(names: Seq<Seq<char>>) -> Seq<Seq<char>> {
    names.filter(|name: Seq<char>| name.len() > 0)
}

/// Whether `users` are the users that `line` lists: the names, without marks of rank,
/// behind the last ` :` of a line with the number of that reply. Without a name there is
/// no list.
pub open spec fn lists_users(line: Seq<char>, users: Option<Seq<Seq<char>>>) -> bool {
    if text::occurs(line, " 353 "@) && text::occurs(line, " :"@) {
        exists|i: int| #[trigger]
            last_occurrence(line, " :"@, i) && {
                let names = real_names(irc::bare_names(line.skip(i + 2)));
                users == if names.len() == 0 {
                    None
                } else {
                    Some(names)
                }
            }
    } else {
        users is None
    }
}

/// Whether `pattern` stands in `s` at `i` and nowhere behind.
pub open spec fn last_occurrence(s: Seq<char>, pattern: Seq<char>, i: int) -> bool {
    &&& text::occurs_at(s, pattern, i)
    &&& forall|j: int| j > i ==> !text::occurs_at(s, pattern, j)
}

/// The position behind which `pattern` does not start again, if it stands in `s` at all.
fn rfind(s: &Vec<char>, pattern: &Vec<char>) -> (found: Option<usize>)
    ensures
        found is Some <==> text::occurs(s@, pattern@),
        found matches Some(i) ==> last_occurrence(s@, pattern@, i as int),
{
    if pattern.len() > s.len() {
        return None;
    }
    let mut i: usize = s.len() - pattern.len();
    loop
        invariant
            pattern@.len() <= s@.len(),
            i <= s@.len() - pattern@.len(),
            forall|j: int| j > i ==> !text::occurs_at(s@, pattern@, j),
        decreases i,
    {
        if text::matches_at(s, pattern, i) {
            return Some(i);
        }
        if i == 0 {
            return None;
        }
        i = i - 1;
    }
}

/// The list of users as texts.
pub open spec fn users_text(users: Option<Vec<String>>) -> Option<Seq<Seq<char>>> {
    match users {
        Some(list) => Some(text::views(list@)),
        None => None,
    }
}

/// The users that a reply with their names lists.
pub fn parse_names_reply(line: &str) -> (users: Option<Vec<String>>)
    ensures
        lists_users(line@, users_text(users)),
{
    if !contains(line, " 353 ") {
        return None;
    }
    proof {
        reveal_strlit(" :");
    }
    let chars = chars_of(line);
    let at: usize = match rfind(&chars, &chars_of(" :")) {
        Some(i) => i,
        None => {
            return None;
        },
    };
    let total: usize = chars.len();
    assert(at + 2 <= total);
    let behind = string_of(&chars, at + 2, total);
    assert(behind@ =~= line@.skip(at + 2));
    let names = names_in(behind.as_str());
    let ghost all = irc::bare_names(behind@);
    let mut users: Vec<String> = Vec::new();
    let mut i: usize = 0;
    proof {
        reveal(Seq::filter);
        assert(all.take(0) =~= Seq::empty());
        assert(text::views(users@) =~= real_names(all.take(0)));
    }
    while i < names.len()
        invariant
            text::views(names@) == all,
            i <= names@.len(),
            text::views(users@) == real_names(all.take(i as int)),
        decreases names@.len() - i,
    {
        let ghost known = text::views(users@);
        proof {
            reveal(Seq::filter);
            assert(all.take(i + 1).drop_last() =~= all.take(i as int));
            assert(all[i as int] == names@[i as int]@);
        }
        if !names[i].as_str().is_empty() {
            users.push(names[i].clone());
            assert(text::views(users@) =~= known.push(all[i as int]));
        }
        i = i + 1;
    }
    assert(all.take(i as int) =~= all);
    assert(text::views(users@).len() == users@.len());
    if users.len() == 0 {
        None
    } else {
        Some(users)
    }
}

/// The nickname of who has sent a line, and the command: the first two words behind the
/// leading colon, of the first one what stands before the exclamation mark.
pub open spec fn sender_and_command(line: Seq<char>) -> Option<(Seq<char>, Seq<char>)> {
    let parts = text::words(line.drop_first());
    if line.len() > 0 && line[0] == ':' && parts.len() >= 2 {
        Some((text::until(parts[0], '!'), parts[1]))
    } else {
        None
    }
}

/// Whether `m` is what `line` says of who has come or left.
pub open spec fn tells_membership(line: Seq<char>, m: Option<Membership>) -> bool {
    match sender_and_command(line) {
        Some((nick, command)) => if nick.len() > 0 && command == "JOIN"@ {
            m matches Some(Membership::Joined(name)) && name@ == nick
        } else if nick.len() > 0 && (command == "PART"@ || command == "QUIT"@) {
            m matches Some(Membership::Left(name)) && name@ == nick
        } else {
            m is None
        },
        None => m is None,
    }
}

/// Who has come into the channel or left it, according to the line.
pub fn parse_membership(line: &str) -> (m: Option<Membership>)
    ensures
        tells_membership(line@, m),
{
    proof {
        reveal_strlit(":");
        if line@.len() > 0 && line@[0] == ':' {
            assert(line@.subrange(0, 1) =~= ":"@);
        }
        if ":"@.is_prefix_of(line@) {
            assert(line@[0] == ":"@[0]);
        }
    }
    let rest = match strip_prefix(line, ":") {
        Some(rest) => rest,
        None => {
            return None;
        },
    };
    assert(rest@ =~= line@.drop_first());
    let parts = split_whitespace(rest);
    assert(text::views(parts@).len() == parts@.len());
    if parts.len() < 2 {
        return None;
    }
    assert(text::views(parts@)[0] == parts@[0]@);
    assert(text::views(parts@)[1] == parts@[1]@);
    let nick = before_char(parts[0].as_str(), '!');
    if nick.as_str().is_empty() {
        return None;
    }
    let command = parts[1].as_str();
    if same(command, "JOIN") {
        Some(Membership::Joined(nick))
    } else if same(command, "PART") || same(command, "QUIT") {
        Some(Membership::Left(nick))
    } else {
        None
    }
}

/// Whoever comes or leaves is told by the nickname before the exclamation mark, whatever
/// the rest of the line says.
pub proof fn law_membership_names_the_sender(
    nick: Seq<char>,
    host: Seq<char>,
    command: Seq<char>,
    rest: Seq<char>,
    m: Option<Membership>,
)
    requires
        nick.len() > 0,
        forall|i: int| 0 <= i < nick.len() ==> !text::is_space(#[trigger] nick[i]),
        !nick.contains('!'),
        forall|i: int| 0 <= i < host.len() ==> !text::is_space(#[trigger] host[i]),
        command == "JOIN"@ || command == "PART"@ || command == "QUIT"@,
        rest.len() > 0 ==> text::is_space(rest[0]),
        tells_membership(
            seq![':'] + nick + seq!['!'] + host + seq![' '] + command + rest,
            m,
        ),
    ensures
        command == "JOIN"@ ==> (m matches Some(Membership::Joined(name)) && name@ == nick),
        command != "JOIN"@ ==> (m matches Some(Membership::Left(name)) && name@ == nick),
{
    reveal_strlit("JOIN");
    reveal_strlit("PART");
    reveal_strlit("QUIT");
    let line = seq![':'] + nick + seq!['!'] + host + seq![' '] + command + rest;
    let source = nick + seq!['!'] + host;
    let behind = seq![' '] + (command + rest);
    assert(line.drop_first() =~= source + behind);
    assert forall|i: int| 0 <= i < source.len() implies !text::is_space(#[trigger] source[i]) by {
        if i < nick.len() {
            assert(source[i] == nick[i]);
        } else if i > nick.len() {
            assert(source[i] == host[i - nick.len() - 1]);
        }
    }
    text::lemma_first_word(source, behind);
    assert(behind.drop_first() =~= command + rest);
    assert(text::words(behind) == text::words(command + rest));
    text::lemma_first_word(command, rest);
    let parts = text::words(line.drop_first());
    assert(parts[0] == source);
    assert(parts[1] == command);
    assert forall|i: int| 0 <= i < nick.len() implies source[i] != '!' by {
        assert(source[i] == nick[i]);
    }
    text::lemma_until_is(source, '!', nick.len() as int);
    assert(source.take(nick.len() as int) =~= nick);
}

/// Whether `event` is what the list of users learns from a line.
pub open spec fn user_event(line: Seq<char>, event: Option<UiEvent>) -> bool {
    exists|users: Option<Vec<String>>, m: Option<Membership>|
        #![trigger users_text(users), tells_membership(line, m)]
        lists_users(line, users_text(users)) && tells_membership(line, m) && match users {
            Some(list) => event matches Some(UiEvent::UserList(shown)) && text::views(shown@)
                == text::views(list@),
            None => match m {
                Some(Membership::Joined(nick)) => event matches Some(UiEvent::UserJoined(name))
                    && name@ == nick@,
                Some(Membership::Left(nick)) => event matches Some(UiEvent::UserLeft(name)) && name
                    @ == nick@,
                None => event is None,
            },
        }
}

/// What the list of users learns from a line: the names of a reply that lists them, else
/// who has come or left.
pub fn user_list_event(line: &str) -> (event: Option<UiEvent>)
    ensures
        user_event(line@, event),
{
    let users = parse_names_reply(line);
    let m = parse_membership(line);
    let ghost listed = users;
    let ghost told = m;
    let event = match users {
        Some(list) => Some(UiEvent::UserList(list)),
        None => match m {
            Some(Membership::Joined(nick)) => Some(UiEvent::UserJoined(nick)),
            Some(Membership::Left(nick)) => Some(UiEvent::UserLeft(nick)),
            None => None,
        },
    };
    assert(lists_users(line@, users_text(listed)) && tells_membership(line@, told));
    event
}

/// Whether the writing to the server ends behind `message`: its first word is `QUIT`, in any
/// case.
pub open spec fn ends_writing(message: Seq<char>) -> bool {
    &&& message.len() >= 4
    &&& forall|i: int| 0 <= i < 4 ==> casing::ascii_upper(#[trigger] message[i]) == "QUIT"@[i]
    &&& message.len() > 4 ==> text::is_space(message[4])
}

/// Whether the writing to the server ends behind `message`.
pub fn is_final_message(message: &str) -> (yes: bool)
    ensures
        yes == ends_writing(message@),
{
    let chars = chars_of(message);
    let word = chars_of("QUIT");
    proof {
        reveal_strlit("QUIT");
    }
    if chars.len() < 4 {
        return false;
    }
    let mut i: usize = 0;
    while i < 4
        invariant
            chars@ == message@,
            word@ == "QUIT"@,
            word@.len() == 4,
            chars@.len() >= 4,
            i <= 4,
            forall|j: int|
                0 <= j < i ==> casing::ascii_upper(#[trigger] message@[j]) == "QUIT"@[j],
        decreases 4 - i,
    {
        if upper(chars[i]) != word[i] {
            assert(casing::ascii_upper(message@[i as int]) != "QUIT"@[i as int]);
            return false;
        }
        i = i + 1;
    }
    chars.len() == 4 || space(chars[4])
}

/// The line for a command that leaves the server is the last one that is written.
pub proof fn law_quit_commands_end_the_writing(command: Seq<char>, channel: Seq<char>)
    requires
        commands::is_quit(command),
    ensures
        ends_writing(commands::command_line(command, channel)),
{
    let line = commands::command_line(command, channel);
    commands::law_quit_commands_send_quit(command, channel);
    reveal_strlit("QUIT");
    assert forall|i: int| 0 <= i < 4 implies casing::ascii_upper(#[trigger] line[i])
        == "QUIT"@[i] by {
        assert(line[i] == "QUIT"@[i]);
    }
}

/// `c` in upper case where it is an ASCII letter, else `c`.
fn upper(c: char) -> (u: char)
    ensures
        u == casing::ascii_upper(c),
{
    if 'a' <= c && c <= 'z' {
        ((c as u8) - 32) as char
    } else {
        c
    }
}

/// What a file that has been received is for.
pub enum Received {
    /// The results of a search, in an archive.
    Results,
    /// A file for the user, with the message that it is there.
    File(UiEvent),
}

/// Whether `filename` is the name of an archive with the results of a search.
pub open spec fn is_results_name(filename: Seq<char>) -> bool {
    SEARCHBOT_RESULTS_PREFIX@.is_prefix_of(filename) && ZIP_EXTENSION@.is_suffix_of(filename)
}

/// What a file that has been received is for.
pub fn classify_file(filename: &str) -> (r: Received)
    ensures
        if is_results_name(filename@) {
            r is Results
        } else {
            r matches Received::File(UiEvent::System(s)) && s@ == "Downloaded file: "@ + filename@
        },
{
    if starts_with(filename, SEARCHBOT_RESULTS_PREFIX) && strip_suffix(
        filename,
        ZIP_EXTENSION,
    ).is_some() {
        Received::Results
    } else {
        Received::File(UiEvent::System(glue2("Downloaded file: ", filename)))
    }
}

/// What the file that has been received under `path` is for; nothing where the path names
/// no file.
pub fn classify_path(path: &str) -> (r: Option<Received>)
    ensures
        dcc::ends_in_part(path@) ==> {
            let name = dcc::behind_slash(path@);
            match r {
                None => name == ".."@,
                Some(received) => name != ".."@ && if is_results_name(name) {
                    received is Results
                } else {
                    received matches Received::File(UiEvent::System(s)) && s@
                        == "Downloaded file: "@ + name
                },
            }
        },
{
    let name = file_name(path)?;
    Some(classify_file(name.as_str()))
}

/// The line that has been received as `bytes`.
pub fn line_received(bytes: &[u8]) -> (line: String)
    ensures
        line@ == text::lossy(bytes@),
        vstd::utf8::valid_utf8(bytes@) ==> line@ == vstd::utf8::decode_utf8(bytes@),
{
    decode_lossy(bytes)
}

/// A reply that lists users lists the names behind its last ` :`, without marks of rank, in
/// their order; of words that are all marks nothing is listed.
pub proof fn law_names_replies_list_the_names(
    head: Seq<char>,
    names: Seq<char>,
    users: Option<Seq<Seq<char>>>,
)
    requires
        text::occurs(head + " :"@ + names, " 353 "@),
        !text::occurs(names, " :"@),
        lists_users(head + " :"@ + names, users),
    ensures
        ({
            let all = irc::bare_names(names);
            let named = forall|i: int| 0 <= i < all.len() ==> (#[trigger] all[i]).len() > 0;
            &&& named && all.len() > 0 ==> users == Some(all)
            &&& all.len() == 0 ==> users is None
            &&& users matches Some(list) ==> {
                &&& list.len() > 0
                &&& forall|i: int| 0 <= i < list.len() ==> (#[trigger] list[i]).len() > 0
                &&& forall|i: int| 0 <= i < list.len() ==> all.contains(#[trigger] list[i])
            }
            &&& forall|i: int|
                0 <= i < all.len() && (#[trigger] all[i]).len() > 0 ==> (users matches Some(list)
                    && list.contains(all[i]))
        }),
{
    reveal_strlit(" :");
    let line = head + " :"@ + names;
    let n = head.len() as int;
    text::law_occurs(head, " :"@, names, seq![]);
    let at = choose|i: int| #[trigger]
        last_occurrence(line, " :"@, i) && {
            let names = real_names(irc::bare_names(line.skip(i + 2)));
            users == if names.len() == 0 {
                None
            } else {
                Some(names)
            }
        };
    assert(text::occurs_at(line, " :"@, at));
    if at < n {
        assert(!text::occurs_at(line, " :"@, n));
    } else if at > n {
        assert(line[at] == line.subrange(at, at + 2)[0]);
        assert(at != n + 1) by {
            if at == n + 1 {
                assert(line[n + 1] == " :"@[1]);
            }
        }
        assert(names.subrange(at - n - 2, at - n) =~= line.subrange(at, at + 2));
        assert(text::occurs_at(names, " :"@, at - n - 2));
    }
    assert(line.skip(n + 2) =~= names);
    lemma_real_names(irc::bare_names(names));
}

proof fn lemma_real_names(all: Seq<Seq<char>>)
    ensures
        (forall|i: int| 0 <= i < all.len() ==> (#[trigger] all[i]).len() > 0) ==> real_names(all)
            == all,
        forall|i: int| 0 <= i < real_names(all).len() ==> (#[trigger] real_names(all)[i]).len() > 0,
        forall|i: int|
            0 <= i < real_names(all).len() ==> all.contains(#[trigger] real_names(all)[i]),
        forall|i: int|
            0 <= i < all.len() && (#[trigger] all[i]).len() > 0 ==> real_names(all).contains(all[i]),
        real_names(all).len() <= all.len(),
    decreases all.len(),
{
    reveal(Seq::filter);
    if all.len() > 0 {
        let fewer = all.drop_last();
        lemma_real_names(fewer);
        let before = real_names(fewer);
        let names = real_names(all);
        if forall|i: int| 0 <= i < all.len() ==> (#[trigger] all[i]).len() > 0 {
            assert forall|i: int| 0 <= i < fewer.len() implies (#[trigger] fewer[i]).len() > 0 by {
                assert(fewer[i] == all[i]);
            }
            assert(all.last().len() > 0) by {
                assert(all[all.len() - 1].len() > 0);
            }
            assert(fewer.push(all.last()) =~= all);
        }
        assert forall|i: int| 0 <= i < names.len() implies (#[trigger] names[i]).len() > 0
            && all.contains(names[i]) by {
            if i < before.len() {
                assert(names[i] == before[i]);
                let j = choose|j: int| 0 <= j < fewer.len() && fewer[j] == before[i];
                assert(all[j] == before[i]);
            } else {
                assert(all[all.len() - 1] == names[i]);
            }
        }
        assert forall|i: int| 0 <= i < all.len() && (#[trigger] all[i]).len() > 0 implies
            names.contains(all[i]) by {
            if i < fewer.len() {
                assert(fewer[i] == all[i]);
                let j = choose|j: int| 0 <= j < before.len() && before[j] == all[i];
                assert(names[j] == all[i]);
            } else {
                assert(names[names.len() - 1] == all[i]);
            }
        }
    }
}

/// A line without the number of a list of users, or without a ` :`, lists no users.
pub proof fn law_other_lines_list_nobody(line: Seq<char>, users: Option<Seq<Seq<char>>>)
    requires
        !text::occurs(line, " 353 "@) || !text::occurs(line, " :"@),
        lists_users(line, users),
    ensures
        users is None,
{
}

/// Nobody comes or leaves by a line that does not begin with a colon, that has no second
/// word, or whose second word is another command.
pub proof fn law_other_lines_tell_of_nobody(
    line: Seq<char>,
    source: Seq<char>,
    command: Seq<char>,
    rest: Seq<char>,
    m: Option<Membership>,
    other: Option<Membership>,
)
    requires
        line.len() == 0 || line[0] != ':',
        tells_membership(line, m),
        source.len() > 0,
        forall|i: int| 0 <= i < source.len() ==> !text::is_space(#[trigger] source[i]),
        command.len() > 0,
        forall|i: int| 0 <= i < command.len() ==> !text::is_space(#[trigger] command[i]),
        command != "JOIN"@ && command != "PART"@ && command != "QUIT"@,
        rest.len() > 0 ==> text::is_space(rest[0]),
        tells_membership(seq![':'] + source + seq![' '] + command + rest, other),
    ensures
        m is None,
        other is None,
{
    let told = seq![':'] + source + seq![' '] + command + rest;
    let behind = seq![' '] + (command + rest);
    assert(told.drop_first() =~= source + behind);
    text::lemma_first_word(source, behind);
    assert(behind.drop_first() =~= command + rest);
    assert(text::words(behind) == text::words(command + rest));
    text::lemma_first_word(command, rest);
    let parts = text::words(told.drop_first());
    assert(parts[1] == command);
}

/// The list of users learns of a line what it lists or tells: the users, who has come, who
/// has left, or nothing.
pub proof fn law_user_events_say_what_the_line_says(
    line: Seq<char>,
    event: Option<UiEvent>,
    users: Option<Vec<String>>,
    m: Option<Membership>,
)
    requires
        user_event(line, event),
        lists_users(line, users_text(users)),
        tells_membership(line, m),
        !(text::occurs(line, " 353 "@) && text::occurs(line, " :"@)),
    ensures
        users is None,
        m matches Some(Membership::Joined(nick)) ==> (event matches Some(UiEvent::UserJoined(name))
            && name@ == nick@),
        m matches Some(Membership::Left(nick)) ==> (event matches Some(UiEvent::UserLeft(name))
            && name@ == nick@),
        m is None ==> event is None,
{
    let (u, n) = choose|u: Option<Vec<String>>, n: Option<Membership>|
        #![trigger users_text(u), tells_membership(line, n)]
        lists_users(line, users_text(u)) && tells_membership(line, n) && match u {
            Some(list) => event matches Some(UiEvent::UserList(shown)) && text::views(shown@)
                == text::views(list@),
            None => match n {
                Some(Membership::Joined(nick)) => event matches Some(UiEvent::UserJoined(name))
                    && name@ == nick@,
                Some(Membership::Left(nick)) => event matches Some(UiEvent::UserLeft(name)) && name
                    @ == nick@,
                None => event is None,
            },
        };
    assert(users_text(u) is None);
}

/// Of a reply with names the list of users learns those names.
pub proof fn law_user_lists_replace_the_list(
    head: Seq<char>,
    names: Seq<char>,
    event: Option<UiEvent>,
)
    requires
        text::occurs(head + " :"@ + names, " 353 "@),
        !text::occurs(names, " :"@),
        irc::bare_names(names).len() > 0,
        forall|i: int|
            0 <= i < irc::bare_names(names).len() ==> (#[trigger] irc::bare_names(names)[i]).len()
                > 0,
        user_event(head + " :"@ + names, event),
    ensures
        event matches Some(UiEvent::UserList(users)) && text::views(users@) == irc::bare_names(
            names,
        ),
{
    let line = head + " :"@ + names;
    let (u, n) = choose|u: Option<Vec<String>>, n: Option<Membership>|
        #![trigger users_text(u), tells_membership(line, n)]
        lists_users(line, users_text(u)) && tells_membership(line, n) && match u {
            Some(list) => event matches Some(UiEvent::UserList(shown)) && text::views(shown@)
                == text::views(list@),
            None => match n {
                Some(Membership::Joined(nick)) => event matches Some(UiEvent::UserJoined(name))
                    && name@ == nick@,
                Some(Membership::Left(nick)) => event matches Some(UiEvent::UserLeft(name)) && name
                    @ == nick@,
                None => event is None,
            },
        };
    law_names_replies_list_the_names(head, names, users_text(u));
}

/// The writing ends with a line whose first word is `QUIT`, in any mixture of case, and with
/// no other line.
pub proof fn law_only_quit_ends_the_writing(word: Seq<char>, rest: Seq<char>)
    requires
        forall|i: int| 0 <= i < word.len() ==> !text::is_space(#[trigger] word[i]),
        rest.len() > 0 ==> text::is_space(rest[0]),
    ensures
        ends_writing(word + rest) <==> word.len() == 4 && (word[0] == 'Q' || word[0] == 'q') && (
        word[1] == 'U' || word[1] == 'u') && (word[2] == 'I' || word[2] == 'i') && (word[3] == 'T'
            || word[3] == 't'),
{
    reveal_strlit("QUIT");
    let s = word + rest;
    let quit = "QUIT"@;
    assert(quit[0] == 'Q' && quit[1] == 'U' && quit[2] == 'I' && quit[3] == 'T');
    if ends_writing(s) {
        assert(casing::ascii_upper(s[0]) == quit[0]);
        assert(casing::ascii_upper(s[1]) == quit[1]);
        assert(casing::ascii_upper(s[2]) == quit[2]);
        assert(casing::ascii_upper(s[3]) == quit[3]);
        if word.len() < 4 {
            assert(s[word.len() as int] == rest[0]);
            assert(text::is_space(s[word.len() as int]));
        } else if word.len() > 4 {
            assert(s[4] == word[4]);
        }
    }
    if word.len() == 4 && (word[0] == 'Q' || word[0] == 'q') && (word[1] == 'U' || word[1] == 'u')
        && (word[2] == 'I' || word[2] == 'i') && (word[3] == 'T' || word[3] == 't') {
        assert(s[0] == word[0] && s[1] == word[1] && s[2] == word[2] && s[3] == word[3]);
        assert forall|i: int| 0 <= i < 4 implies casing::ascii_upper(#[trigger] s[i]) == quit[i] by {
            assert(i == 0 || i == 1 || i == 2 || i == 3);
        }
    }
}

/// The results of a search come in an archive that the search bot names for them; every
/// other file is one for the user.
pub proof fn law_results_are_told_by_their_name(middle: Seq<char>, name: Seq<char>)
    ensures
        is_results_name("SearchBot_results"@ + middle + ".zip"@),
        !"SearchBot_results"@.is_prefix_of(name) || !".zip"@.is_suffix_of(name)
            ==> !is_results_name(name),
{
    reveal_strlit("SearchBot_results");
    reveal_strlit(".zip");
    let s = "SearchBot_results"@ + middle + ".zip"@;
    let a = "SearchBot_results"@.len() as int;
    assert(s.subrange(0, a) =~= "SearchBot_results"@);
    assert(s.subrange(s.len() - 4, s.len() as int) =~= ".zip"@);
}

/// A source without an exclamation mark is itself the name of who has come or left; one that
/// begins with the mark names nobody, and neither does a line without a second word.
pub proof fn law_sources_without_a_host(
    source: Seq<char>,
    command: Seq<char>,
    rest: Seq<char>,
    m: Option<Membership>,
    nameless: Option<Membership>,
    alone: Option<Membership>,
)
    requires
        source.len() > 0,
        !source.contains('!'),
        forall|i: int| 0 <= i < source.len() ==> !text::is_space(#[trigger] source[i]),
        command == "JOIN"@ || command == "PART"@ || command == "QUIT"@,
        rest.len() > 0 ==> text::is_space(rest[0]),
        tells_membership(seq![':'] + source + seq![' '] + command + rest, m),
        tells_membership(seq![':', '!'] + source + seq![' '] + command + rest, nameless),
        tells_membership(seq![':'] + source, alone),
    ensures
        command == "JOIN"@ ==> (m matches Some(Membership::Joined(name)) && name@ == source),
        command != "JOIN"@ ==> (m matches Some(Membership::Left(name)) && name@ == source),
        nameless is None,
        alone is None,
{
    reveal_strlit("JOIN");
    reveal_strlit("PART");
    reveal_strlit("QUIT");
    let line = seq![':'] + source + seq![' '] + command + rest;
    let behind = seq![' '] + (command + rest);
    assert(line.drop_first() =~= source + behind);
    text::lemma_first_word(source, behind);
    assert(behind.drop_first() =~= command + rest);
    assert(text::words(behind) == text::words(command + rest));
    text::lemma_first_word(command, rest);
    text::law_until(source, '!', seq![]);
    let parts = text::words(line.drop_first());
    assert(parts[0] == source && parts[1] == command);
    let marked = seq!['!'] + source;
    let other = seq![':', '!'] + source + seq![' '] + command + rest;
    assert(other.drop_first() =~= marked + behind);
    assert forall|i: int| 0 <= i < marked.len() implies !text::is_space(#[trigger] marked[i]) by {
        if i > 0 {
            assert(marked[i] == source[i - 1]);
        }
    }
    text::lemma_first_word(marked, behind);
    text::law_until(seq![], '!', source);
    assert(Seq::<char>::empty() + seq!['!'] + source =~= marked);
    assert(text::words(other.drop_first())[0] == marked);
    let bare = seq![':'] + source;
    assert(bare.drop_first() =~= source);
    text::law_words(source, seq![], seq![]);
}

}
