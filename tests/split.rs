use regex::Regex;
use regex_split::bytes::RegexSplit as BytesRegexSplit;
use regex_split::RegexSplit;

fn right<'t>(re: &Regex, text: &'t str) -> Vec<&'t str> {
    let mut it = re.split_inclusive(text);
    let mut out = Vec::new();
    while let Some(piece) = it.next() {
        out.push(piece);
    }
    out
}

fn left<'t>(re: &Regex, text: &'t str) -> Vec<&'t str> {
    let mut it = re.split_inclusive_left(text);
    let mut out = Vec::new();
    while let Some(piece) = it.next() {
        out.push(piece);
    }
    out
}

fn bytes_right<'t>(re: &regex::bytes::Regex, text: &'t [u8]) -> Vec<&'t [u8]> {
    let mut it = re.split_inclusive(text);
    let mut out = Vec::new();
    while let Some(piece) = it.next() {
        out.push(piece);
    }
    out
}

fn bytes_left<'t>(re: &regex::bytes::Regex, text: &'t [u8]) -> Vec<&'t [u8]> {
    let mut it = re.split_inclusive_left(text);
    let mut out = Vec::new();
    while let Some(piece) = it.next() {
        out.push(piece);
    }
    out
}

#[test]
fn lines_with_mixed_newlines() {
    let re = Regex::new("\r?\n").unwrap();
    let text = "This is just\na set of lines\r\nwith different newlines.";
    assert_eq!(
        right(&re, text),
        ["This is just\n", "a set of lines\r\n", "with different newlines."]
    );
}

#[test]
fn inclusive_right_keeps_newlines_at_the_end() {
    let re = Regex::new(r"\r?\n").unwrap();
    let text = "Mary had a little lamb\nlittle lamb\r\nlittle lamb.";
    assert_eq!(
        right(&re, text),
        ["Mary had a little lamb\n", "little lamb\r\n", "little lamb."]
    );
}

#[test]
fn inclusive_left_moves_newlines_to_the_front() {
    let re = Regex::new(r"\r?\n").unwrap();
    let text = "Mary had a little lamb\nlittle lamb\r\nlittle lamb.";
    assert_eq!(
        left(&re, text),
        ["Mary had a little lamb", "\nlittle lamb", "\r\nlittle lamb."]
    );
}

#[test]
fn inclusive_left_list_items() {
    let re = Regex::new("(?m)^-").unwrap();
    let text = "List of fruits:\n-apple\n-pear\n-banana";
    assert_eq!(
        left(&re, text),
        ["List of fruits:\n", "-apple\n", "-pear\n", "-banana"]
    );
}

#[test]
fn no_match_gives_the_whole_input() {
    let re = Regex::new("X").unwrap();
    assert_eq!(right(&re, "abc"), ["abc"]);
    assert_eq!(left(&re, "abc"), ["abc"]);
    let bre = regex::bytes::Regex::new("X").unwrap();
    assert_eq!(bytes_right(&bre, b"abc"), [&b"abc"[..]]);
    assert_eq!(bytes_left(&bre, b"abc"), [&b"abc"[..]]);
}

#[test]
fn empty_input_gives_one_empty_item() {
    let re = Regex::new("X").unwrap();
    assert_eq!(right(&re, ""), [""]);
    assert_eq!(left(&re, ""), [""]);
}

#[test]
fn match_of_the_whole_input() {
    let re = Regex::new("abc").unwrap();
    assert_eq!(right(&re, "abc"), ["abc", ""]);
    assert_eq!(left(&re, "abc"), ["", "abc"]);
}

#[test]
fn adjacent_matches_give_empty_items() {
    let re = Regex::new(",").unwrap();
    assert_eq!(right(&re, "a,,b"), ["a,", ",", "b"]);
    assert_eq!(left(&re, "a,,b"), ["a", ",", ",b"]);
}

#[test]
fn exhausted_splitter_stays_exhausted() {
    let re = Regex::new(",").unwrap();
    let mut it = re.split_inclusive("a,b");
    assert_eq!(it.next(), Some("a,"));
    assert_eq!(it.next(), Some("b"));
    assert_eq!(it.next(), None);
    assert_eq!(it.next(), None);
    assert_eq!(it.next(), None);
    let mut it = re.split_inclusive_left("a,b");
    assert_eq!(it.next(), Some("a"));
    assert_eq!(it.next(), Some(",b"));
    assert_eq!(it.next(), None);
    assert_eq!(it.next(), None);
    let bre = regex::bytes::Regex::new(",").unwrap();
    let mut it = bre.split_inclusive(b"a,");
    assert_eq!(it.next(), Some(&b"a,"[..]));
    assert_eq!(it.next(), Some(&b""[..]));
    assert_eq!(it.next(), None);
    assert_eq!(it.next(), None);
}

#[test]
fn items_reassemble_and_count() {
    let re = Regex::new(r"\s+").unwrap();
    let text = "  one two\tthree \n four  ";
    let n = re.find_iter(text).count();
    let r = right(&re, text);
    let l = left(&re, text);
    assert_eq!(r.len(), n + 1);
    assert_eq!(l.len(), n + 1);
    assert_eq!(r.concat(), text);
    assert_eq!(l.concat(), text);
    assert_eq!(r, ["  ", "one ", "two\t", "three \n ", "four  ", ""]);
    assert_eq!(l, ["", "  one", " two", "\tthree", " \n four", "  "]);
}

#[test]
fn empty_match_at_a_fixed_offset() {
    let re = Regex::new("^").unwrap();
    assert_eq!(right(&re, "abc"), ["", "abc"]);
    assert_eq!(left(&re, "abc"), ["", "abc"]);
    let re = Regex::new("$").unwrap();
    assert_eq!(right(&re, "abc"), ["abc", ""]);
    assert_eq!(left(&re, "abc"), ["abc", ""]);
    let re = Regex::new("b??").unwrap();
    assert_eq!(right(&re, "ab"), ["", "a", "b", ""]);
}

#[test]
fn empty_pattern_cuts_between_characters() {
    let re = Regex::new("").unwrap();
    assert_eq!(right(&re, "aé"), ["", "a", "é", ""]);
    assert_eq!(left(&re, "aé"), ["", "a", "é", ""]);
}

#[test]
fn multibyte_text_is_cut_on_character_boundaries() {
    let re = Regex::new("ß").unwrap();
    let text = "größe straße";
    assert_eq!(right(&re, text), ["größ", "e straß", "e"]);
    assert_eq!(left(&re, text), ["grö", "ße stra", "ße"]);
}

#[test]
fn bytes_and_text_agree_on_ascii() {
    let text = "key=value; other = thing ;last";
    let re = Regex::new(r"\s*;\s*").unwrap();
    let bre = regex::bytes::Regex::new(r"\s*;\s*").unwrap();
    let r: Vec<&[u8]> = right(&re, text).iter().map(|s| s.as_bytes()).collect();
    let l: Vec<&[u8]> = left(&re, text).iter().map(|s| s.as_bytes()).collect();
    assert_eq!(r, bytes_right(&bre, text.as_bytes()));
    assert_eq!(l, bytes_left(&bre, text.as_bytes()));
    assert_eq!(r.len(), 3);
}

#[test]
fn bytes_split_non_utf8_input() {
    let bre = regex::bytes::Regex::new(r"(?-u)\xFF").unwrap();
    let data: &[u8] = &[1, 0xFF, 2, 3, 0xFF];
    assert_eq!(
        bytes_right(&bre, data),
        [&[1u8, 0xFF][..], &[2u8, 3, 0xFF][..], &[][..]]
    );
    assert_eq!(
        bytes_left(&bre, data),
        [&[1u8][..], &[0xFFu8, 2, 3][..], &[0xFFu8][..]]
    );
}
