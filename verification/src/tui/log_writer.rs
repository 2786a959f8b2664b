//! Lines of the log on their way into the message pane.
use vstd::prelude::*;

use crate::text;
use crate::text::{decode_lossy, same, split_whitespace, trim_end};
use crate::tui::app::MessageType;
use crate::tui::UiEvent;

verus! {

/// The type of message for the word `word`, where it is the word for a level: warnings as
/// errors, so that they are seen.
pub open spec fn level_type(word: Seq<char>) -> Option<MessageType> {
    if word == "ERROR"@ || word == "WARN"@ {
        Some(MessageType::Error)
    } else if word == "INFO"@ {
        Some(MessageType::Info)
    } else if word == "DEBUG"@ || word == "TRACE"@ {
        Some(MessageType::Debug)
    } else {
        None
    }
}

/// The type of message for the first of the words that is the word for a level.
pub open spec fn first_level(words: Seq<Seq<char>>) -> MessageType
    decreases words.len(),
{
    if words.len() == 0 {
        MessageType::Info
    } else {
        match level_type(words[0]) {
            Some(message_type) => message_type,
            None => first_level(words.drop_first()),
        }
    }
}

/// The type of message for a line of the log.
pub open spec fn log_type(line: Seq<char>) -> MessageType {
    first_level(text::words(line))
}

fn type_of_level(word: &str) -> (t: Option<MessageType>)
    ensures
        t == level_type(word@),
{
    if same(word, "ERROR") || same(word, "WARN") {
        Some(MessageType::Error)
    } else if same(word, "INFO") {
        Some(MessageType::Info)
    } else if same(word, "DEBUG") || same(word, "TRACE") {
        Some(MessageType::Debug)
    } else {
        None
    }
}

/// Classify a formatted log line by its level token: the first word that is one. A line
/// without one is information.
pub fn message_type_from_log_line(line: &str) -> (t: MessageType)
    ensures
        t == log_type(line@),
{
    let words = split_whitespace(line);
    let ghost all = text::words(line@);
    let mut i: usize = 0;
    assert(all.skip(0) =~= all);
    assert(text::views(words@).len() == words@.len());
    while i < words.len()
        invariant
            text::views(words@) == all,
            all == text::words(line@),
            all.len() == words@.len(),
            i <= words@.len(),
            first_level(all.skip(i as int)) == first_level(all),
        decreases words@.len() - i,
    {
        let ghost rest = all.skip(i as int);
        proof {
            assert(text::views(words@)[i as int] == words@[i as int]@);
            assert(rest[0] == words@[i as int]@);
            assert(rest.drop_first() =~= all.skip(i + 1));
        }
        if let Some(t) = type_of_level(words[i].as_str()) {
            return t;
        }
        i = i + 1;
    }
    MessageType::Info
}

/// The words behind the level token do not change how a line is classified.
pub proof fn law_level_token_decides(words: Seq<Seq<char>>, level: Seq<char>, rest: Seq<Seq<char>>)
    requires
        forall|i: int| 0 <= i < words.len() ==> level_type(#[trigger] words[i]) is None,
        level_type(level) is Some,
    ensures
        first_level(words + seq![level] + rest) == level_type(level)->0,
    decreases words.len(),
{
    let all = words + seq![level] + rest;
    if words.len() > 0 {
        let fewer = words.drop_first();
        assert forall|i: int| 0 <= i < fewer.len() implies level_type(
            #[trigger] fewer[i],
        ) is None by {
            assert(fewer[i] == words[i + 1]);
        }
        law_level_token_decides(fewer, level, rest);
        assert(all[0] == words[0]);
        assert(all.drop_first() =~= fewer + seq![level] + rest);
    } else {
        assert(all[0] == level);
    }
}

/// Whether `event` shows the line `line`: without white space at its end, and not at all
/// where nothing is left.
pub open spec fn shows_line(line: Seq<char>, event: Option<UiEvent>) -> bool {
    let shown = text::right_trimmed(line);
    if shown.len() == 0 {
        event is None
    } else {
        event matches Some(UiEvent::Log(t, s)) && s@ == shown && t == log_type(shown)
    }
}

/// A line of the log is shown whole, without the white space at its end, and as what its
/// level says: errors and warnings as errors, information as information, the rest as debug
/// messages. Words before the level and behind it do not matter.
pub proof fn law_log_lines_are_shown_by_level(
    before: Seq<char>,
    level: Seq<char>,
    rest: Seq<char>,
    event: Option<UiEvent>,
)
    requires
        level == "ERROR"@ || level == "WARN"@ || level == "INFO"@ || level == "DEBUG"@ || level
            == "TRACE"@,
        forall|i: int|
            0 <= i < text::words(before).len() ==> {
                let word = #[trigger] text::words(before)[i];
                word != "ERROR"@ && word != "WARN"@ && word != "INFO"@ && word != "DEBUG"@ && word
                    != "TRACE"@
            },
        before.len() == 0 || text::is_space(before.last()),
        rest.len() == 0 || text::is_space(rest[0]),
        shows_line(before + level + rest, event),
    ensures
        event matches Some(UiEvent::Log(kind, shown)) && shown@ == text::right_trimmed(
            before + level + rest,
        ) && kind == log_type(before + level + rest),
        log_type(before + level + rest) == if level == "ERROR"@ || level == "WARN"@ {
            MessageType::Error
        } else if level == "INFO"@ {
            MessageType::Info
        } else {
            MessageType::Debug
        },
{
    reveal_strlit("ERROR");
    reveal_strlit("WARN");
    reveal_strlit("INFO");
    reveal_strlit("DEBUG");
    reveal_strlit("TRACE");
    assert("INFO"@[0] == 'I' && "WARN"@[0] == 'W' && "ERROR"@[0] == 'E' && "DEBUG"@[0] == 'D'
        && "TRACE"@[0] == 'T');
    assert forall|i: int| 0 <= i < text::words(before).len() implies level_type(
        #[trigger] text::words(before)[i],
    ) is None by {
        let word = text::words(before)[i];
        assert(word != "ERROR"@ && word != "WARN"@);
    }
    law_level_token_decides(text::words(before), level, text::words(rest));
    let line = before + level + rest;
    let shown = text::right_trimmed(line);
    let end = text::law_right_trimming(line);
    assert(shown.len() == 0 || end.len() == 0 || text::is_space(end[0]));
    text::law_words_of_parts(shown, end);
    text::law_words(seq!['x'], end, seq![]);
    assert(end + Seq::<char>::empty() =~= end);
    assert(text::words(shown) =~= text::words(line));
    text::law_words_of_parts(before + level, rest);
    text::law_words_of_parts(before, level);
    assert forall|i: int| 0 <= i < level.len() implies !text::is_space(#[trigger] level[i]) by {
        assert(i == 0 || i == 1 || i == 2 || i == 3 || i == 4);
    }
    text::law_words(level, seq![], seq![]);
    assert(text::words(line) =~= text::words(before) + seq![level] + text::words(rest));
    assert(shown.len() > 0) by {
        if shown.len() == 0 {
            assert(text::words(shown).len() == 0);
        }
    }
}

/// A line of the log without a word for a level is shown as information, and one of nothing
/// but white space is not shown.
pub proof fn law_log_lines_without_a_level(line: Seq<char>, event: Option<UiEvent>)
    requires
        shows_line(line, event),
        forall|i: int|
            0 <= i < text::words(text::right_trimmed(line)).len() ==> {
                let word = #[trigger] text::words(text::right_trimmed(line))[i];
                word != "ERROR"@ && word != "WARN"@ && word != "DEBUG"@ && word != "TRACE"@
            },
    ensures
        text::right_trimmed(line).len() == 0 ==> event is None,
        text::right_trimmed(line).len() > 0 ==> (event matches Some(UiEvent::Log(kind, shown))
            && shown@ == text::right_trimmed(line) && kind == MessageType::Info),
        log_type(text::right_trimmed(line)) == MessageType::Info,
{
    lemma_no_level(text::words(text::right_trimmed(line)));
}

proof fn lemma_no_level(words: Seq<Seq<char>>)
    requires
        forall|i: int|
            0 <= i < words.len() ==> {
                let word = #[trigger] words[i];
                word != "ERROR"@ && word != "WARN"@ && word != "DEBUG"@ && word != "TRACE"@
            },
    ensures
        first_level(words) == MessageType::Info,
    decreases words.len(),
{
    if words.len() > 0 {
        let word = words[0];
        assert(word != "ERROR"@ && word != "WARN"@ && word != "DEBUG"@ && word != "TRACE"@);
        let rest = words.drop_first();
        assert forall|i: int| 0 <= i < rest.len() implies {
            let word = #[trigger] rest[i];
            word != "ERROR"@ && word != "WARN"@ && word != "DEBUG"@ && word != "TRACE"@
        } by {
            assert(rest[i] == words[i + 1]);
        }
        lemma_no_level(rest);
    }
}

/// The event that shows a line of the log.
pub fn log_event(line: &str) -> (event: Option<UiEvent>)
    ensures
        shows_line(line@, event),
{
    let shown = trim_end(line);
    if shown.is_empty() {
        None
    } else {
        Some(UiEvent::Log(message_type_from_log_line(shown), shown.to_owned()))
    }
}

/// The event that shows what has been written to the log.
pub fn written_event(bytes: &[u8]) -> (event: Option<UiEvent>)
    ensures
        shows_line(text::lossy(bytes@), event),
        vstd::utf8::valid_utf8(bytes@) ==> shows_line(vstd::utf8::decode_utf8(bytes@), event),
{
    log_event(decode_lossy(bytes).as_str())
}

}
