use pirelay::decimal::{decimal_chars, parse_u32_chars};
use pirelay::text::{
    starts_with_ascii_lower_chars,
    chars_of, find_chars, lines_chars, replace_char_chars, split_chars, string_of, to_ascii_uppercase,
    trim_chars, trim_end_crlf_chars, trim_quote_chars,
};

fn c(s: &str) -> Vec<char> {
    s.chars().collect()
}

fn parts(v: Vec<Vec<char>>) -> Vec<String> {
    v.into_iter().map(|p| p.into_iter().collect()).collect()
}

#[test]
fn round_trip_strings() {
    assert_eq!(chars_of("héllo"), c("héllo"));
    assert_eq!(string_of(&c("héllo")), "héllo");
    assert_eq!(string_of(&Vec::new()), "");
}

#[test]
fn trims() {
    assert_eq!(trim_chars(&c(" \t a b \n\u{3000}")), c("a b"));
    assert_eq!(trim_chars(&c("   ")), c(""));
    assert_eq!(trim_quote_chars(&c("\"\"x\"y\"")), c("x\"y"));
    assert_eq!(trim_end_crlf_chars(&c("a\r\n\r\n")), c("a"));
    assert_eq!(trim_end_crlf_chars(&c("a\n\r")), c("a\n\r"));
    assert_eq!(trim_end_crlf_chars(&c("a\r\r\n")), c("a\r"));
}

#[test]
fn splitting() {
    assert_eq!(parts(split_chars(&c("a,b,,c"), &c(","))), vec!["a", "b", "", "c"]);
    assert_eq!(parts(split_chars(&c(""), &c(","))), vec![""]);
    assert_eq!(parts(split_chars(&c("aaa"), &c("aa"))), vec!["", "a"]);
    assert_eq!(parts(split_chars(&c("xboundary=y"), &c("boundary="))), vec!["x", "y"]);
}

#[test]
fn line_splitting() {
    assert_eq!(parts(lines_chars(&c("a\r\nb\nc"))), vec!["a", "b", "c"]);
    assert_eq!(parts(lines_chars(&c("a\n"))), vec!["a"]);
    assert_eq!(parts(lines_chars(&c("\na\r"))), vec!["", "a\r"]);
    assert_eq!(parts(lines_chars(&c(""))), Vec::<String>::new());
}

#[test]
fn finding() {
    assert_eq!(find_chars(&c("abcabc"), &c("ca")), Some(2));
    assert_eq!(find_chars(&c("abc"), &c("d")), None);
    assert_eq!(find_chars(&c("ab"), &c("abc")), None);
}

#[test]
fn case_and_replace() {
    assert_eq!(to_ascii_uppercase(&c("send-é1z")), c("SEND-é1Z"));
    assert_eq!(replace_char_chars(&c("a/b/c"), '/', '_'), c("a_b_c"));
}

#[test]
fn decimal_reading() {
    assert_eq!(parse_u32_chars(&c("5623")), Some(5623));
    assert_eq!(parse_u32_chars(&c("+7")), Some(7));
    assert_eq!(parse_u32_chars(&c("007")), Some(7));
    assert_eq!(parse_u32_chars(&c("4294967295")), Some(4294967295));
    assert_eq!(parse_u32_chars(&c("4294967296")), None);
    assert_eq!(parse_u32_chars(&c("99999999999999999999")), None);
    assert_eq!(parse_u32_chars(&c("")), None);
    assert_eq!(parse_u32_chars(&c("+")), None);
    assert_eq!(parse_u32_chars(&c("-1")), None);
    assert_eq!(parse_u32_chars(&c(" 1")), None);
    assert_eq!(parse_u32_chars(&c("1a")), None);
    for s in ["0", "1", "+12", "65535", "4294967295", "x", "", "++1"] {
        assert_eq!(parse_u32_chars(&c(s)), s.parse::<u32>().ok());
    }
}

#[test]
fn decimal_writing_reads_back() {
    for n in [0u64, 7, 10, 5623, 4294967295, u64::MAX] {
        assert_eq!(string_of(&decimal_chars(n)), n.to_string());
    }
    for n in [0u32, 9, 80, 5623, u32::MAX] {
        assert_eq!(parse_u32_chars(&decimal_chars(n as u64)), Some(n));
    }
}

const SAMPLES: &[&str] = &[
    "",
    " ",
    "a",
    "  padded\t",
    "\u{85}x\u{a0}",
    "\u{2000}\u{200a}y\u{200b}",
    "\u{3000}z\u{feff}",
    "a,b,,c,",
    ",,",
    "line1\r\nline2\n\nline3\r",
    "\r\n\r\n",
    "\"quoted\"",
    "\"\"",
    "x\r\n\r\n\r\n",
    "héllo wörld",
    "boundary=one; boundary=two",
];

#[test]
fn trim_agrees_with_std() {
    for s in SAMPLES {
        assert_eq!(trim_chars(&c(s)), c(s.trim()), "{:?}", s);
        assert_eq!(trim_quote_chars(&c(s)), c(s.trim_matches('"')), "{:?}", s);
        assert_eq!(trim_end_crlf_chars(&c(s)), c(s.trim_end_matches("\r\n")), "{:?}", s);
    }
    for code in 0u32..0x3100 {
        if let Some(ch) = char::from_u32(code) {
            let s = ch.to_string();
            assert_eq!(trim_chars(&c(&s)), c(s.trim()), "{:?}", code);
        }
    }
}

#[test]
fn split_and_find_agree_with_std() {
    for s in SAMPLES {
        for sep in [",", "\r\n", "boundary=", "--", "a", "ne"] {
            let ours = parts(split_chars(&c(s), &c(sep)));
            let theirs: Vec<String> = s.split(sep).map(|x| x.to_string()).collect();
            assert_eq!(ours, theirs, "{:?} / {:?}", s, sep);
            let pos = find_chars(&c(s), &c(sep));
            let std_pos = s.find(sep).map(|b| s[..b].chars().count());
            assert_eq!(pos, std_pos, "{:?} / {:?}", s, sep);
        }
    }
}

#[test]
fn lines_agree_with_std() {
    for s in SAMPLES {
        let theirs: Vec<String> = s.lines().map(|x| x.to_string()).collect();
        assert_eq!(parts(lines_chars(&c(s))), theirs, "{:?}", s);
    }
}

#[test]
fn upper_case_agrees_with_std() {
    for s in SAMPLES.iter().chain(["send", "ReCeIvE", "ß-é-z"].iter()) {
        assert_eq!(to_ascii_uppercase(&c(s)), c(&s.to_ascii_uppercase()));
    }
}

#[test]
fn disposition_prefix_agrees_with_lowercase() {
    let key = c("content-disposition");
    let bases = ["Content-Disposition: x", "CONTENT-DISPOSITION", "content-dispositio", "xcontent-disposition"];
    for b in bases {
        assert_eq!(starts_with_ascii_lower_chars(&c(b), &key), b.to_lowercase().starts_with("content-disposition"));
    }
    for code in 0u32..0x3000 {
        if let Some(ch) = char::from_u32(code) {
            for pos in [0usize, 9, 14, 18] {
                let mut v = c("content-disposition: a");
                v[pos] = ch;
                let s: String = v.iter().collect();
                assert_eq!(
                    starts_with_ascii_lower_chars(&v, &key),
                    s.to_lowercase().starts_with("content-disposition"),
                    "{:?} at {}",
                    ch,
                    pos
                );
            }
        }
    }
    for s in ["\u{130}", "K", "\u{212a}"] {
        let line = format!("content-d{}sposition", s);
        assert_eq!(
            starts_with_ascii_lower_chars(&c(&line), &key),
            line.to_lowercase().starts_with("content-disposition")
        );
    }
}
