use airc::commands::{entry_digits, search_term};
use airc::dcc::parse_dcc_offer;
use airc::irc::parse_dcc_send;

/// The digits zero of the scripts that have decimal digits.
const ZEROS: [u32; 76] = [
    0x30, 0x660, 0x6f0, 0x7c0, 0x966, 0x9e6, 0xa66, 0xae6, 0xb66, 0xbe6, 0xc66, 0xce6, 0xd66,
    0xde6, 0xe50, 0xed0, 0xf20, 0x1040, 0x1090, 0x17e0, 0x1810, 0x1946, 0x19d0, 0x1a80, 0x1a90,
    0x1b50, 0x1bb0, 0x1c40, 0x1c50, 0xa620, 0xa8d0, 0xa900, 0xa9d0, 0xa9f0, 0xaa50, 0xabf0,
    0xff10, 0x104a0, 0x10d30, 0x10d40, 0x11066, 0x110f0, 0x11136, 0x111d0, 0x112f0, 0x11450,
    0x114d0, 0x11650, 0x116c0, 0x116d0, 0x116da, 0x11730, 0x118e0, 0x11950, 0x11bf0, 0x11c50,
    0x11d50, 0x11da0, 0x11f50, 0x16130, 0x16a60, 0x16ac0, 0x16b50, 0x16d70, 0x1ccf0, 0x1d7ce,
    0x1d7d8, 0x1d7e2, 0x1d7ec, 0x1d7f6, 0x1e140, 0x1e2f0, 0x1e4f0, 0x1e5f1, 0x1e950, 0x1fbf0,
];

fn is_decimal(c: char) -> bool {
    ZEROS.iter().any(|z| *z <= c as u32 && c as u32 <= z + 9)
}

type Offer = (bool, String, String, String, String);

fn text(chars: &[char]) -> String {
    chars.iter().collect()
}

fn number(s: &[char]) -> usize {
    s.iter().take_while(|c| is_decimal(**c)).count()
}

fn endpoint(quoted: bool, name: &[char], s: &[char]) -> Option<Offer> {
    if name.is_empty() || s.first() != Some(&' ') {
        return None;
    }
    let mut parts = Vec::new();
    let mut rest = &s[1..];
    for last in [false, false, true] {
        let n = number(rest);
        if n == 0 || (!last && rest.get(n) != Some(&' ')) {
            return None;
        }
        parts.push(text(&rest[..n]));
        rest = if last { rest } else { &rest[n + 1..] };
    }
    Some((quoted, text(name), parts[0].clone(), parts[1].clone(), parts[2].clone()))
}

fn any_offer_at(s: &[char], p: usize) -> Option<Offer> {
    let word: Vec<char> = "DCC SEND ".chars().collect();
    let head = s.get(p..p + 9)?;
    let fold = |c: char| if c == '\u{17f}' { 'S' } else { c.to_ascii_uppercase() };
    if !head.iter().zip(&word).all(|(a, b)| fold(*a) == *b) {
        return None;
    }
    let rest = &s[p + 9..];
    if rest.first() == Some(&'"') {
        if let Some(n) = rest[1..].iter().position(|c| *c == '"') {
            if let Some(offer) = endpoint(true, &rest[1..n + 1], &rest[n + 2..]) {
                return Some(offer);
            }
        }
    }
    let n = rest.iter().take_while(|c| !c.is_whitespace()).count();
    endpoint(false, &rest[..n], &rest[n..])
}

fn strict_offer_at(s: &[char], p: usize) -> Option<Offer> {
    if text(s.get(p..p + 9)?) != "DCC SEND " {
        return None;
    }
    let rest = &s[p + 9..];
    let n = rest.iter().take_while(|c| **c != ' ').count();
    endpoint(false, &rest[..n], &rest[n..])
}

/// The last offer on the first line on which one starts.
fn find(s: &[char], at: fn(&[char], usize) -> Option<Offer>) -> Option<Offer> {
    let first = (0..s.len()).find(|p| at(s, *p).is_some())?;
    let end = (first..s.len()).find(|p| s[*p] == '\n').unwrap_or(s.len());
    (first..end).rev().find_map(|p| at(s, p))
}

fn random_lines(tokens: &[&str], count: usize) -> Vec<String> {
    let mut x: u64 = 0x2545_f491_4f6c_dd1d;
    let mut next = |n: usize| {
        x ^= x << 13;
        x ^= x >> 7;
        x ^= x << 17;
        (x % n as u64) as usize
    };
    (0..count)
        .map(|_| {
            let length = next(9);
            (0..length).map(|_| tokens[next(tokens.len())]).collect()
        })
        .collect()
}

const TOKENS: [&str; 19] = [
    "DCC SEND ", "dcc send ", "DCC \u{17f}END ", "\"", " ", "\n", "a", "1", "23", "\u{663}", "x\" ",
    "\u{e9}", "\t", "SEND ", "\r", " 1 2 3", " 4 5 6", "\"a b\" 1 2 3", "\u{3000}",
];

#[test]
fn offers_are_found_where_the_contract_says() {
    for line in random_lines(&TOKENS, 1500) {
        let chars: Vec<char> = line.chars().collect();
        let found = parse_dcc_offer(&line).map(|o| (o.quoted, o.filename, o.ip, o.port, o.size));
        assert_eq!(found, find(&chars, any_offer_at), "{:?}", line);
    }
}

#[test]
fn strict_offers_are_found_where_the_contract_says() {
    for line in random_lines(&TOKENS, 1500) {
        let chars: Vec<char> = line.chars().collect();
        let expected = find(&chars, strict_offer_at);
        match parse_dcc_send(&line) {
            Ok(Some(info)) => {
                let (_, filename, ip, port, size) = expected.unwrap();
                assert_eq!((info.filename, info.ip, info.port), (filename, ip, port));
                assert_eq!(info.size.to_string(), size.trim_start_matches('0'));
            }
            Ok(None) => assert_eq!(expected, None, "{:?}", line),
            Err(_) => assert!(expected.unwrap().4.parse::<u32>().is_err()),
        }
    }
}

#[test]
fn search_terms_are_found_where_the_contract_says() {
    let tokens = ["/s", "/search ", "/s ", "earch", " ", "\n", "a", "/"];
    for line in random_lines(&tokens, 1500) {
        let term = line.strip_prefix("/s ").or_else(|| line.strip_prefix("/search "));
        let expected = term.map(|t| t.split('\n').next().unwrap_or("").to_string());
        assert_eq!(search_term(&line), expected, "{:?}", line);
    }
}

#[test]
fn digits_are_those_of_every_script() {
    for zero in ZEROS {
        let digits: String = (zero..zero + 10).map(|n| char::from_u32(n).unwrap()).collect();
        assert_eq!(entry_digits(&format!("/{}", digits)), Some(digits));
        for n in [zero - 1, zero + 10] {
            let c = char::from_u32(n).unwrap();
            assert_eq!(entry_digits(&format!("/{}", c)).is_some(), is_decimal(c));
        }
    }
    for c in [' ', '/', 'a', '\u{b2}', '\u{bc}', '\u{2160}', '\u{3007}', '\u{4e00}', '\u{1f51f}'] {
        assert_eq!(entry_digits(&format!("/{}", c)), None);
    }
}
