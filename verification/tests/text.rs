use airc::text::{
    byte_len, contains, count_within, find, glue5, replace, same, space, split, split_whitespace,
    starts_with, strip_prefix, strip_suffix, trim, trim_end, trim_start, trim_start_matches,
};

const SAMPLES: [&str; 9] = [
    "", " ", "a b  c", "\u{a0}x\u{2003}", "a:b::c", "PINGPING", "\u{e9}\u{1f4da} z", "\r\n", "@+n~",
];

#[test]
fn texts_are_cut_as_the_standard_library_cuts_them() {
    for s in SAMPLES {
        assert_eq!(trim(s), s.trim());
        assert_eq!(trim_start(s), s.trim_start());
        assert_eq!(trim_end(s), s.trim_end());
        assert_eq!(split_whitespace(s), s.split_whitespace().collect::<Vec<_>>());
        assert_eq!(split(s, ':'), s.split(':').collect::<Vec<_>>());
        assert_eq!(replace(s, "PING", "PONG"), s.replace("PING", "PONG"));
        assert_eq!(
            trim_start_matches(s, "@+%&~"),
            s.trim_start_matches(['@', '+', '%', '&', '~'])
        );
        assert_eq!(byte_len(s), s.len());
        for p in ["", "a", "b ", "\u{e9}", "NG"] {
            assert_eq!(starts_with(s, p), s.starts_with(p));
            assert_eq!(contains(s, p), s.contains(p));
            assert_eq!(strip_prefix(s, p), s.strip_prefix(p));
            assert_eq!(strip_suffix(s, p), s.strip_suffix(p));
            assert_eq!(find(s, p), s.find(p).map(|i| s[..i].chars().count()));
            assert_eq!(same(s, p), s == p);
        }
    }
}

#[test]
fn white_space_is_that_of_unicode() {
    for n in 0..0x30000u32 {
        if let Some(c) = char::from_u32(n) {
            assert_eq!(space(c), c.is_whitespace());
        }
    }
}

#[test]
fn characters_are_counted_by_their_bytes() {
    for s in SAMPLES {
        let chars: Vec<char> = s.chars().collect();
        for n in 0..s.len() + 2 {
            let expected = s.char_indices().filter(|(i, c)| i + c.len_utf8() <= n).count();
            assert_eq!(count_within(&chars, n), expected);
        }
    }
    assert_eq!(glue5("a", "", "b", "c", "\u{e9}"), "abc\u{e9}");
}
