//! What the lines that the user types ask for.
use vstd::prelude::*;

use crate::casing;
use crate::casing::lower_chars;
use crate::number;
use crate::number::parse_unsigned;
use crate::pattern;
use crate::pattern::captures;
use crate::text;
use crate::text::{
    chars_of, find_chars, glue2, glue3, glue5, same, space, starts_with, strip_prefix, trim,
};

verus! {

/// Whether `needle` stands in `haystack` when the case of letters is left out.
pub open spec fn contains_folded(haystack: Seq<char>, needle: Seq<char>) -> bool {
    needle.len() == 0 || text::occurs(casing::lowercase(haystack), casing::lowercase(needle))
}

/// Case-insensitive substring search.
pub fn contains_ignore_case(haystack: &str, needle: &str) -> (yes: bool)
    ensures
        yes == contains_folded(haystack@, needle@),
        vstd::utf8::is_ascii_chars(haystack@) && vstd::utf8::is_ascii_chars(needle@) ==> yes
            == text::occurs(
            haystack@.map_values(|c: char| casing::ascii_lower(c)),
            needle@.map_values(|c: char| casing::ascii_lower(c)),
        ),
{
    if needle.is_empty() {
        proof {
            let lowered = haystack@.map_values(|c: char| casing::ascii_lower(c));
            let nothing = needle@.map_values(|c: char| casing::ascii_lower(c));
            assert(lowered.subrange(0, 0) =~= nothing);
            assert(text::occurs_at(lowered, nothing, 0));
        }
        return true;
    }
    find_chars(&lower_chars(haystack), &lower_chars(needle)).is_some()
}

/// A text that stands in another one as it is also stands in it when case is left out.
pub proof fn law_exact_match_is_folded_match(haystack: Seq<char>, needle: Seq<char>)
    requires
        text::occurs(haystack, needle),
    ensures
        contains_folded(haystack, needle),
{
    let i = choose|i: int| text::occurs_at(haystack, needle, i);
    let head = haystack.take(i);
    let tail = haystack.skip(i + needle.len());
    assert(haystack =~= head + needle + tail);
    lemma_lowercase_concat(head, needle);
    lemma_lowercase_concat(head + needle, tail);
    let all = casing::lowercase(haystack);
    let low = casing::lowercase(needle);
    let k = casing::lowercase(head).len() as int;
    assert(all.subrange(k, k + low.len()) =~= low);
    assert(text::occurs_at(all, low, k));
}

proof fn lemma_lowercase_concat(a: Seq<char>, b: Seq<char>)
    ensures
        casing::lowercase(a + b) == casing::lowercase(a) + casing::lowercase(b),
    decreases b.len(),
{
    if b.len() == 0 {
        assert(a + b =~= a);
        assert(casing::lowercase(a) + casing::lowercase(b) =~= casing::lowercase(a));
    } else {
        lemma_lowercase_concat(a, b.drop_last());
        assert((a + b).drop_last() =~= a + b.drop_last());
        assert(casing::lowercase(a + b) =~= casing::lowercase(a) + casing::lowercase(b));
    }
}

/// `/ss <term>` — local filter over already-downloaded results. Returns the term.
pub fn local_search_term<'a>(input: &'a str) -> (term: Option<&'a str>)
    ensures
        term is Some <==> "/ss "@.is_prefix_of(input@),
        term matches Some(t) ==> t@ == text::trimmed(input@.skip(4)),
{
    proof {
        reveal_strlit("/ss ");
    }
    match strip_prefix(input, "/ss ") {
        Some(rest) => Some(trim(rest)),
        None => None,
    }
}

/// The term of the search request that `command` is, if it is one.
pub fn search_term(command: &str) -> (term: Option<String>)
    ensures
        text::opt_view(term) == pattern::search_term(command@),
{
    match captures(pattern::SEARCH_PATTERN, command) {
        Some(mut groups) => groups.swap_remove(2),
        None => None,
    }
}

/// The digits of the request for a numbered entry, where `input` is one.
pub fn entry_digits(input: &str) -> (digits: Option<String>)
    ensures
        digits is Some <==> pattern::is_entry(input@),
        digits matches Some(d) ==> d@ == input@.drop_first(),
{
    match captures(pattern::ENTRY_PATTERN, input) {
        Some(mut groups) => groups.swap_remove(1),
        None => None,
    }
}

/// The number of the entry that `input` requests: behind a slash nothing but digits, which
/// are those of a number in the range of `usize`.
pub open spec fn requested_entry(input: Seq<char>) -> Option<nat> {
    if pattern::is_entry(input) {
        match number::parsed(input.drop_first(), usize::MAX as nat) {
            Ok(n) => Some(n),
            Err(_) => None,
        }
    } else {
        None
    }
}

/// `/<n>` — request the n-th book entry. Returns the parsed index.
pub fn entry_number(input: &str) -> (n: Option<usize>)
    ensures
        match n {
            Some(v) => requested_entry(input@) == Some(v as nat),
            None => requested_entry(input@) is None,
        },
{
    let digits = entry_digits(input)?;
    proof {
        number::law_parsed_value(digits@, usize::MAX as nat);
    }
    match parse_unsigned(digits.as_str(), usize::MAX as u64) {
        Ok(v) => Some(v as usize),
        Err(_) => None,
    }
}

/// The number behind a slash requests the entry of that number.
pub proof fn law_entry_requested_by_number(n: nat)
    requires
        n <= usize::MAX,
    ensures
        requested_entry(seq!['/'] + number::decimal(n)) == Some(n),
{
    let s = seq!['/'] + number::decimal(n);
    number::law_decimal_roundtrip(n, usize::MAX as nat);
    number::lemma_decimal(n);
    assert(s.drop_first() =~= number::decimal(n));
    assert forall|i: int| 0 <= i < number::decimal(n).len() implies pattern::is_decimal(
        #[trigger] number::decimal(n)[i],
    ) by {
        pattern::lemma_is_decimal(number::decimal(n)[i]);
    }
}

/// Whether the command leaves the server.
pub open spec fn is_quit(command: Seq<char>) -> bool {
    ||| "/quit"@.is_prefix_of(command) && (command.len() == 5 || text::is_space(command[5]))
    ||| command == "/q"@
    ||| "/q "@.is_prefix_of(command)
}

/// Whether the command leaves the server.
fn leaves(command: &str) -> (yes: bool)
    ensures
        yes == is_quit(command@),
{
    proof {
        reveal_strlit("/quit");
    }
    if same(command, "/q") || starts_with(command, "/q ") {
        return true;
    }
    if !starts_with(command, "/quit") {
        return false;
    }
    let chars = chars_of(command);
    chars.len() == 5 || space(chars[5])
}

/// The words of farewell in a command that leaves the server.
pub open spec fn farewell(command: Seq<char>) -> Seq<char> {
    if "/quit "@.is_prefix_of(command) {
        command.skip(6)
    } else if "/q "@.is_prefix_of(command) {
        command.skip(3)
    } else {
        seq![]
    }
}

/// The words of farewell in a command that leaves the server.
pub fn farewell_of<'a>(command: &'a str) -> (message: &'a str)
    ensures
        message@ == farewell(command@),
{
    proof {
        reveal_strlit("/quit ");
        reveal_strlit("/q ");
        reveal_strlit("");
    }
    let message = match strip_prefix(command, "/quit ") {
        Some(rest) => rest,
        None => match strip_prefix(command, "/q ") {
            Some(rest) => rest,
            None => "",
        },
    };
    assert(message@ =~= farewell(command@));
    message
}

/// `command` without one leading slash.
pub open spec fn unslashed(command: Seq<char>) -> Seq<char> {
    if command.len() > 0 && command[0] == '/' {
        command.drop_first()
    } else {
        command
    }
}

/// The line to send for a command: to join the channel, to leave, to search in the
/// channel, or the command itself.
pub open spec fn command_line(command: Seq<char>, channel: Seq<char>) -> Seq<char> {
    if command == "/join"@ || command == "/j"@ {
        "JOIN "@ + channel + "\r\n"@
    } else if is_quit(command) {
        if farewell(command).len() == 0 {
            "QUIT\r\n"@
        } else {
            "QUIT :"@ + farewell(command) + "\r\n"@
        }
    } else {
        match pattern::search_term(command) {
            Some(term) => "PRIVMSG "@ + channel + " :@search "@ + term + "\r\n"@,
            None => text::trimmed(unslashed(command)) + "\r\n"@,
        }
    }
}

/// Map a user input line to the IRC string to send, or `None` if nothing
/// should be sent. `/ss` and `/<n>` are handled by the caller (the render
/// loop) since they depend on the in-memory book list.
pub fn process_command(command: &str, channel: &str) -> (line: Option<String>)
    ensures
        line matches Some(s) && s@ == command_line(command@, channel@),
{
    if same(command, "/join") || same(command, "/j") {
        return Some(glue3("JOIN ", channel, "\r\n"));
    }
    if leaves(command) {
        let message = farewell_of(command);
        return if message.is_empty() {
            Some("QUIT\r\n".to_owned())
        } else {
            Some(glue3("QUIT :", message, "\r\n"))
        };
    }
    if let Some(term) = search_term(command) {
        return Some(glue5("PRIVMSG ", channel, " :@search ", term.as_str(), "\r\n"));
    }
    proof {
        reveal_strlit("/");
    }
    let raw = match strip_prefix(command, "/") {
        Some(rest) => rest,
        None => command,
    };
    assert(raw@ =~= unslashed(command@)) by {
        if command@.len() > 0 && command@[0] == '/' {
            assert(command@.subrange(0, 1) =~= "/"@);
        }
        if "/"@.is_prefix_of(command@) {
            assert(command@[0] == "/"@[0]);
        }
    }
    Some(glue2(trim(raw), "\r\n"))
}

/// Every line that a command becomes ends a line of the protocol.
pub proof fn law_command_line_is_terminated(command: Seq<char>, channel: Seq<char>)
    ensures
        "\r\n"@.is_suffix_of(command_line(command, channel)),
{
    reveal_strlit("\r\n");
    reveal_strlit("QUIT\r\n");
}

/// The first word of the line for a command that leaves the server is `QUIT`.
pub proof fn law_quit_commands_send_quit(command: Seq<char>, channel: Seq<char>)
    requires
        is_quit(command),
    ensures
        ({
            let line = command_line(command, channel);
            &&& "QUIT"@.is_prefix_of(line)
            &&& line.len() > 4 && text::is_space(line[4])
            &&& text::words(line).len() > 0
            &&& text::words(line)[0] == "QUIT"@
        }),
{
    reveal_strlit("/quit");
    reveal_strlit("/quit ");
    reveal_strlit("/q ");
    reveal_strlit("/q");
    reveal_strlit("/join");
    reveal_strlit("/j");
    reveal_strlit("QUIT");
    reveal_strlit("QUIT\r\n");
    reveal_strlit("QUIT :");
    assert(command[1] == 'q') by {
        if "/quit"@.is_prefix_of(command) {
            assert(command[1] == "/quit"@[1]);
        } else if "/q "@.is_prefix_of(command) {
            assert(command[1] == "/q "@[1]);
        }
    }
    assert(command != "/join"@ && command != "/j"@);
    assert("QUIT\r\n"@.subrange(0, 4) =~= "QUIT"@);
    let words = "QUIT :"@ + farewell(command) + "\r\n"@;
    assert(words.subrange(0, 4) =~= "QUIT"@);
    let line = command_line(command, channel);
    assert(line[4] == ' ' || line[4] == '\r');
    assert(line =~= "QUIT"@ + line.skip(4));
    text::lemma_first_word("QUIT"@, line.skip(4));
}

/// A search for a term, in either form, asks the channel for that term.
pub proof fn law_search_commands_search(term: Seq<char>, channel: Seq<char>)
    requires
        !term.contains('\n'),
    ensures
        command_line("/s "@ + term, channel) == "PRIVMSG "@ + channel + " :@search "@ + term
            + "\r\n"@,
        command_line("/search "@ + term, channel) == "PRIVMSG "@ + channel + " :@search "@ + term
            + "\r\n"@,
{
    reveal_strlit("/quit");
    reveal_strlit("/quit ");
    reveal_strlit("/q ");
    reveal_strlit("/q");
    reveal_strlit("/join");
    reveal_strlit("/j");
    reveal_strlit("/s ");
    reveal_strlit("/search ");
    text::lemma_until_is(term, '\n', term.len() as int);
    assert(term.take(term.len() as int) =~= term);
    let short = "/s "@ + term;
    let long = "/search "@ + term;
    assert(short.subrange(0, 3) =~= "/s "@);
    assert(long.subrange(0, 8) =~= "/search "@);
    assert(short.skip(3) =~= term);
    assert(long.skip(8) =~= term);
    assert(long[2] == 'e' && short[1] == 's' && long[1] == 's');
    assert(!"/s "@.is_prefix_of(long)) by {
        if "/s "@.is_prefix_of(long) {
            assert(long.subrange(0, 3)[2] == ' ');
        }
    }
    assert forall|command: Seq<char>|
        command.len() > 1 && #[trigger] command[1] == 's' implies !is_quit(command) && command
        != "/join"@ && command != "/j"@ by {
        if "/quit"@.is_prefix_of(command) {
            assert(command[1] == "/quit"@[1]);
        }
        if "/q "@.is_prefix_of(command) {
            assert(command[1] == "/q "@[1]);
        }
    }
}

/// A command of another name than those for joining, leaving and searching is sent as it
/// is, without its slash.
pub proof fn law_other_commands_are_sent_raw(
    name: Seq<char>,
    rest: Seq<char>,
    channel: Seq<char>,
)
    requires
        forall|i: int| 0 <= i < name.len() ==> !text::is_space(#[trigger] name[i]),
        rest.len() > 0 ==> text::is_space(rest[0]),
        name != "join"@ && name != "j"@ && name != "quit"@ && name != "q"@ && name != "search"@
            && name != "s"@,
    ensures
        command_line(seq!['/'] + name + rest, channel) == text::trimmed(name + rest) + "\r\n"@,
{
    let command = seq!['/'] + name + rest;
    reveal_strlit("/join");
    reveal_strlit("/j");
    reveal_strlit("/quit");
    reveal_strlit("/q");
    reveal_strlit("/quit ");
    reveal_strlit("/q ");
    reveal_strlit("/s");
    reveal_strlit("/search");
    reveal_strlit("/s ");
    reveal_strlit("/search ");
    reveal_strlit("join");
    reveal_strlit("j");
    reveal_strlit("quit");
    reveal_strlit("q");
    reveal_strlit("search");
    reveal_strlit("s");
    lemma_command_name(name, rest, "join"@);
    lemma_command_name(name, rest, "j"@);
    lemma_command_name(name, rest, "quit"@);
    lemma_command_name(name, rest, "q"@);
    lemma_command_name(name, rest, "search"@);
    lemma_command_name(name, rest, "s"@);
    assert("/join"@ =~= seq!['/'] + "join"@);
    assert("/j"@ =~= seq!['/'] + "j"@);
    assert("/quit"@ =~= seq!['/'] + "quit"@);
    assert("/q"@ =~= seq!['/'] + "q"@);
    if "/q "@.is_prefix_of(command) {
        lemma_spaced(command, "/q"@, "/q "@);
    }
    if "/s "@.is_prefix_of(command) {
        lemma_spaced(command, "/s"@, "/s "@);
    }
    if "/search "@.is_prefix_of(command) {
        lemma_spaced(command, "/search"@, "/search "@);
    }
    assert("/s"@ =~= seq!['/'] + "s"@);
    assert("/search"@ =~= seq!['/'] + "search"@);
    assert(unslashed(command) =~= name + rest);
}

proof fn lemma_spaced(command: Seq<char>, word: Seq<char>, spaced: Seq<char>)
    requires
        spaced =~= word + seq![' '],
        spaced.is_prefix_of(command),
    ensures
        word.is_prefix_of(command),
        command.len() > word.len(),
        text::is_space(command[word.len() as int]),
{
    assert(command.subrange(0, word.len() as int) =~= word) by {
        assert forall|i: int| 0 <= i < word.len() implies command[i] == word[i] by {
            assert(command[i] == spaced[i]);
        }
    }
    assert(command[word.len() as int] == spaced[word.len() as int]);
}

proof fn lemma_command_name(name: Seq<char>, rest: Seq<char>, other: Seq<char>)
    requires
        forall|i: int| 0 <= i < name.len() ==> !text::is_space(#[trigger] name[i]),
        rest.len() > 0 ==> text::is_space(rest[0]),
        forall|i: int| 0 <= i < other.len() ==> !text::is_space(#[trigger] other[i]),
        name != other,
    ensures
        ({
            let command = seq!['/'] + name + rest;
            let word = seq!['/'] + other;
            !(word.is_prefix_of(command) && (command.len() == word.len() || text::is_space(
                command[word.len() as int],
            )))
        }),
{
    let command = seq!['/'] + name + rest;
    let word = seq!['/'] + other;
    let n = name.len() as int;
    let m = other.len() as int;
    if word.is_prefix_of(command) {
        if n < m {
            assert(command[n + 1] == rest[0]);
            assert(command[n + 1] == word[n + 1] && word[n + 1] == other[n]);
        } else if n > m {
            assert(command[m + 1] == name[m]);
        } else {
            assert forall|i: int| 0 <= i < n implies name[i] == other[i] by {
                assert(command[i + 1] == name[i]);
                assert(command[i + 1] == word[i + 1]);
            }
            assert(name =~= other);
        }
    }
}

/// The command to join asks for the channel, in either form.
pub proof fn law_join_commands_join(channel: Seq<char>)
    ensures
        command_line("/join"@, channel) == "JOIN "@ + channel + "\r\n"@,
        command_line("/j"@, channel) == "JOIN "@ + channel + "\r\n"@,
{
}

/// The command to leave, in either form, sends the words behind it as a farewell, whole, or
/// none where there are none.
pub proof fn law_quit_commands_send_the_farewell(message: Seq<char>, channel: Seq<char>)
    ensures
        message.len() > 0 ==> command_line("/quit "@ + message, channel) == "QUIT :"@ + message
            + "\r\n"@,
        message.len() > 0 ==> command_line("/q "@ + message, channel) == "QUIT :"@ + message
            + "\r\n"@,
        command_line("/quit"@, channel) == "QUIT\r\n"@,
        command_line("/q"@, channel) == "QUIT\r\n"@,
        message.len() > 0 && text::is_space(message[0]) && message[0] != ' ' ==> command_line(
            "/quit"@ + message,
            channel,
        ) == "QUIT\r\n"@,
{
    reveal_strlit("/quit");
    reveal_strlit("/quit ");
    reveal_strlit("/q");
    reveal_strlit("/q ");
    reveal_strlit("/join");
    reveal_strlit("/j");
    let long = "/quit "@ + message;
    let short = "/q "@ + message;
    let other = "/quit"@ + message;
    assert(long.subrange(0, 6) =~= "/quit "@);
    assert(long.subrange(0, 5) =~= "/quit"@);
    assert(short.subrange(0, 3) =~= "/q "@);
    assert(other.subrange(0, 5) =~= "/quit"@);
    assert("/quit"@.subrange(0, 5) =~= "/quit"@);
    assert(long.skip(6) =~= message);
    assert(short.skip(3) =~= message);
    assert(long[1] == 'q' && short[1] == 'q' && other[1] == 'q');
    assert("/join"@[1] == 'j' && "/j"@[1] == 'j');
    assert(!"/quit "@.is_prefix_of(short)) by {
        if "/quit "@.is_prefix_of(short) {
            assert(short[2] == "/quit "@[2]);
        }
    }
    assert(!"/q "@.is_prefix_of("/quit"@)) by {
        if "/q "@.is_prefix_of("/quit"@) {
            assert("/quit"@[2] == "/q "@[2]);
        }
    }
    if message.len() > 0 && message[0] != ' ' {
        assert(other[5] == message[0]);
        if "/quit "@.is_prefix_of(other) {
            assert(other[5] == "/quit "@[5]);
        }
        if "/q "@.is_prefix_of(other) {
            assert(other[2] == "/q "@[2]);
        }
    }
}

/// A search asks for the rest of its line and not for what stands on the next one.
pub proof fn law_searches_end_with_the_line(
    term: Seq<char>,
    more: Seq<char>,
    channel: Seq<char>,
)
    requires
        !term.contains('\n'),
    ensures
        pattern::search_term("/s "@ + term) == Some(term),
        pattern::search_term("/search "@ + term) == Some(term),
        pattern::search_term("/s "@ + term + seq!['\n'] + more) == Some(term),
        pattern::search_term("/search "@ + term + seq!['\n'] + more) == Some(term),
{
    reveal_strlit("/s ");
    reveal_strlit("/search ");
    text::law_until(term, '\n', more);
    let both = term + seq!['\n'] + more;
    lemma_search(term);
    lemma_search(both);
    assert("/s "@ + term + seq!['\n'] + more =~= "/s "@ + both);
    assert("/search "@ + term + seq!['\n'] + more =~= "/search "@ + both);
}

proof fn lemma_search(rest: Seq<char>)
    ensures
        pattern::search_term("/s "@ + rest) == Some(text::until(rest, '\n')),
        pattern::search_term("/search "@ + rest) == Some(text::until(rest, '\n')),
{
    reveal_strlit("/s ");
    reveal_strlit("/search ");
    let short = "/s "@ + rest;
    let long = "/search "@ + rest;
    assert(short.subrange(0, 3) =~= "/s "@);
    assert(long.subrange(0, 8) =~= "/search "@);
    assert(short.skip(3) =~= rest);
    assert(long.skip(8) =~= rest);
    assert(!"/s "@.is_prefix_of(long)) by {
        if "/s "@.is_prefix_of(long) {
            assert(long[2] == "/s "@[2]);
        }
    }
}

/// A line that does not begin with a slash is sent as it is, without the white space around
/// it.
pub proof fn law_plain_lines_are_sent_as_they_are(line: Seq<char>, channel: Seq<char>)
    requires
        line.len() == 0 || line[0] != '/',
    ensures
        command_line(line, channel) == text::trimmed(line) + "\r\n"@,
{
    reveal_strlit("/quit");
    reveal_strlit("/q");
    reveal_strlit("/q ");
    reveal_strlit("/join");
    reveal_strlit("/j");
    reveal_strlit("/s ");
    reveal_strlit("/search ");
    if "/quit"@.is_prefix_of(line) {
        assert(line[0] == "/quit"@[0]);
    }
    if "/q "@.is_prefix_of(line) {
        assert(line[0] == "/q "@[0]);
    }
    if "/s "@.is_prefix_of(line) {
        assert(line[0] == "/s "@[0]);
    }
    if "/search "@.is_prefix_of(line) {
        assert(line[0] == "/search "@[0]);
    }
}

/// Only a slash and digits request an entry: a line without the slash, or with another ASCII
/// character than a digit, requests none.
pub proof fn law_only_numbers_request_entries(input: Seq<char>)
    ensures
        input.len() < 2 ==> requested_entry(input) is None,
        input.len() > 0 && input[0] != '/' ==> requested_entry(input) is None,
        (exists|i: int|
            1 <= i < input.len() && (#[trigger] input[i]) < '\u{660}' && !('0' <= input[i] <= '9'))
            ==> requested_entry(input) is None,
        requested_entry(input) matches Some(n) ==> n == number::digits_value(input.drop_first()) && n
            <= usize::MAX,
{
    let digits = input.drop_first();
    if exists|i: int|
        1 <= i < input.len() && (#[trigger] input[i]) < '\u{660}' && !('0' <= input[i] <= '9') {
        let i = choose|i: int|
            1 <= i < input.len() && (#[trigger] input[i]) < '\u{660}' && !('0' <= input[i] <= '9');
        pattern::lemma_is_decimal(input[i]);
        assert(digits[i - 1] == input[i]);
        if pattern::is_entry(input) {
            assert(pattern::is_decimal(digits[i - 1]));
        }
    }
    if pattern::is_entry(input) {
        number::law_parsed_value(digits, usize::MAX as nat);
        assert(pattern::is_decimal(digits[0]));
        if digits[0] == '+' {
            pattern::lemma_is_decimal('+');
        }
    }
}

/// A text stands in another one without regard to case exactly where it stands there once
/// both are in lower case; so it does wherever words stand that differ from it in case only.
pub proof fn law_case_is_left_out(
    head: Seq<char>,
    words: Seq<char>,
    tail: Seq<char>,
    needle: Seq<char>,
    haystack: Seq<char>,
)
    requires
        casing::lowercase(words) == casing::lowercase(needle),
    ensures
        contains_folded(head + words + tail, needle),
        needle.len() > 0 && !text::occurs(casing::lowercase(haystack), casing::lowercase(needle))
            ==> !contains_folded(haystack, needle),
        needle.len() == 0 ==> contains_folded(haystack, needle),
{
    lemma_lowercase_concat(head, words);
    lemma_lowercase_concat(head + words, tail);
    text::law_occurs(
        casing::lowercase(head),
        casing::lowercase(words),
        casing::lowercase(tail),
        seq![],
    );
}

/// A command is sent as it is, without its slash and the white space around it, unless it is
/// exactly the command to join, the command to leave, or a search, which has a space and a
/// term behind its name.
pub proof fn law_only_known_commands_are_special(
    name: Seq<char>,
    rest: Seq<char>,
    channel: Seq<char>,
)
    requires
        forall|i: int| 0 <= i < name.len() ==> !text::is_space(#[trigger] name[i]),
        rest.len() > 0 ==> text::is_space(rest[0]),
        !((name == "join"@ || name == "j"@) && rest.len() == 0),
        name != "quit"@,
        !(name == "q"@ && (rest.len() == 0 || rest[0] == ' ')),
        !((name == "s"@ || name == "search"@) && rest.len() > 0 && rest[0] == ' '),
    ensures
        command_line(seq!['/'] + name + rest, channel) == text::trimmed(name + rest) + "\r\n"@,
{
    if name != "join"@ && name != "j"@ && name != "q"@ && name != "search"@ && name != "s"@ {
        law_other_commands_are_sent_raw(name, rest, channel);
    } else {
        let command = seq!['/'] + name + rest;
        reveal_strlit("/join");
        reveal_strlit("/j");
        reveal_strlit("/quit");
        reveal_strlit("/q");
        reveal_strlit("/q ");
        reveal_strlit("/s ");
        reveal_strlit("/search ");
        reveal_strlit("join");
        reveal_strlit("j");
        reveal_strlit("q");
        reveal_strlit("search");
        reveal_strlit("s");
        let n = name.len() as int;
        assert(command[1] == name[0]);
        assert(rest.len() > 0 ==> command[n + 1] == rest[0]);
        assert(unslashed(command) =~= name + rest);
        if "/quit"@.is_prefix_of(command) {
            assert(command[1] == "/quit"@[1] && command[2] == "/quit"@[2]);
        }
        if "/q "@.is_prefix_of(command) {
            assert(command[1] == "/q "@[1] && command[2] == "/q "@[2]);
        }
        if "/s "@.is_prefix_of(command) {
            assert(command[1] == "/s "@[1] && command[2] == "/s "@[2]);
            if name == "search"@ {
                assert(command[2] == name[1]);
            }
        }
        if "/search "@.is_prefix_of(command) {
            assert(command[1] == "/search "@[1] && command[2] == "/search "@[2] && command[7]
                == "/search "@[7]);
        }
        if command == "/join"@ {
            assert(command.len() == 5);
            assert(command[4] == "/join"@[4] && command[2] == "/join"@[2]);
        }
        if command == "/j"@ {
            assert(command.len() == 2);
        }
    }
}

/// A search asks the channel for its term, up to the end of the line.
pub proof fn law_searches_ask_the_channel(
    term: Seq<char>,
    more: Seq<char>,
    channel: Seq<char>,
)
    requires
        !term.contains('\n'),
    ensures
        command_line("/s "@ + term + seq!['\n'] + more, channel) == "PRIVMSG "@ + channel
            + " :@search "@ + term + "\r\n"@,
        command_line("/search "@ + term + seq!['\n'] + more, channel) == "PRIVMSG "@ + channel
            + " :@search "@ + term + "\r\n"@,
{
    law_searches_end_with_the_line(term, more, channel);
    reveal_strlit("/join");
    reveal_strlit("/j");
    reveal_strlit("/quit");
    reveal_strlit("/q");
    reveal_strlit("/q ");
    reveal_strlit("/s ");
    reveal_strlit("/search ");
    let short = "/s "@ + term + seq!['\n'] + more;
    let long = "/search "@ + term + seq!['\n'] + more;
    assert(short[1] == 's' && long[1] == 's');
    assert forall|command: Seq<char>|
        command.len() > 1 && #[trigger] command[1] == 's' implies !is_quit(command) && command
        != "/join"@ && command != "/j"@ by {
        if "/quit"@.is_prefix_of(command) {
            assert(command[1] == "/quit"@[1]);
        }
        if "/q "@.is_prefix_of(command) {
            assert(command[1] == "/q "@[1]);
        }
        assert("/join"@[1] == 'j' && "/j"@[1] == 'j' && "/q"@[1] == 'q');
    }
}

/// A farewell is what stands behind the command to leave and a space, whole.
pub proof fn law_farewells_are_whole(message: Seq<char>, other: Seq<char>)
    ensures
        farewell("/quit "@ + message) == message,
        farewell("/q "@ + message) == message,
        !"/quit "@.is_prefix_of(other) && !"/q "@.is_prefix_of(other) ==> farewell(other).len()
            == 0,
{
    reveal_strlit("/quit ");
    reveal_strlit("/q ");
    let long = "/quit "@ + message;
    let short = "/q "@ + message;
    assert(long.subrange(0, 6) =~= "/quit "@);
    assert(short.subrange(0, 3) =~= "/q "@);
    assert(long.skip(6) =~= message);
    assert(short.skip(3) =~= message);
    if "/quit "@.is_prefix_of(short) {
        assert(short[2] == "/quit "@[2]);
    }
}

/// A slash and ASCII digits are a request for an entry; with any other ASCII character among
/// them, or without the slash, it is none.
pub proof fn law_requests_are_digits(input: Seq<char>)
    requires
        forall|i: int| 0 <= i < input.len() ==> (#[trigger] input[i]) < '\u{660}',
    ensures
        pattern::is_entry(input) <==> {
            &&& input.len() > 1
            &&& input[0] == '/'
            &&& forall|i: int| 1 <= i < input.len() ==> '0' <= #[trigger] input[i] <= '9'
        },
{
    let digits = input.drop_first();
    assert forall|i: int| 1 <= i < input.len() implies pattern::is_decimal(#[trigger] input[i]) == (
    '0' <= input[i] <= '9') && digits[i - 1] == input[i] by {
        pattern::lemma_is_decimal(input[i]);
    }
    if pattern::is_entry(input) {
        assert forall|i: int| 1 <= i < input.len() implies '0' <= #[trigger] input[i] <= '9' by {
            assert(pattern::is_decimal(digits[i - 1]));
        }
    }
    if input.len() > 1 && input[0] == '/' && (forall|i: int|
        1 <= i < input.len() ==> '0' <= #[trigger] input[i] <= '9') {
        assert forall|j: int| 0 <= j < digits.len() implies pattern::is_decimal(
            #[trigger] digits[j],
        ) by {
            assert(digits[j] == input[j + 1]);
        }
    }
}

}
