use raftrust::raft::text::decimal_string;
use raftrust::raft::text::{chars_of, parse_u16, parse_u8, split_chars, IntErrorKind};

fn kind_of(e: &std::num::ParseIntError) -> IntErrorKind {
    match e.kind() {
        std::num::IntErrorKind::Empty => IntErrorKind::Empty,
        std::num::IntErrorKind::InvalidDigit => IntErrorKind::InvalidDigit,
        std::num::IntErrorKind::PosOverflow => IntErrorKind::PosOverflow,
        other => panic!("unexpected kind {:?}", other),
    }
}

const SAMPLES: &[&str] = &[
    "", "0", "7", "+", "-", "+0", "-0", "+12", "++1", "00012", "255", "256", "65535", "65536",
    "99999a", "12a", "a12", " 1", "1 ", "4294967296", "١٢", "+65535", "0000000000000000255",
    "70000x", "2550", "9", "10", "-1",
];

#[test]
fn parse_u8_agrees_with_std() {
    for s in SAMPLES {
        let ours = parse_u8(&chars_of(s));
        let theirs = s.parse::<u8>().map_err(|e| kind_of(&e));
        assert_eq!(ours, theirs, "input {:?}", s);
    }
}

#[test]
fn parse_u16_agrees_with_std() {
    for s in SAMPLES {
        let ours = parse_u16(&chars_of(s));
        let theirs = s.parse::<u16>().map_err(|e| kind_of(&e));
        assert_eq!(ours, theirs, "input {:?}", s);
    }
}

#[test]
fn parse_u16_exact_values() {
    assert_eq!(parse_u16(&chars_of("8080")), Ok(8080));
    assert_eq!(parse_u16(&chars_of("+1")), Ok(1));
    assert_eq!(parse_u16(&chars_of("")), Err(IntErrorKind::Empty));
    assert_eq!(parse_u16(&chars_of("65536")), Err(IntErrorKind::PosOverflow));
    assert_eq!(parse_u16(&chars_of("99999a")), Err(IntErrorKind::PosOverflow));
    assert_eq!(parse_u16(&chars_of("9a")), Err(IntErrorKind::InvalidDigit));
}

#[test]
fn chars_of_keeps_every_char() {
    assert_eq!(chars_of("a.é:1"), vec!['a', '.', 'é', ':', '1']);
    assert_eq!(chars_of(""), Vec::<char>::new());
}

#[test]
fn split_chars_agrees_with_str_split() {
    for s in ["", ".", "1.2.3.4:80", "..a..", "abc", "a:b:c", ":"] {
        for sep in ['.', ':'] {
            let ours: Vec<String> = split_chars(&chars_of(s), sep)
                .into_iter()
                .map(|v| v.into_iter().collect())
                .collect();
            let theirs: Vec<String> = s.split(sep).map(|x| x.to_string()).collect();
            assert_eq!(ours, theirs, "input {:?} sep {:?}", s, sep);
        }
    }
}

#[test]
fn decimal_string_agrees_with_to_string() {
    for n in [0u16, 1, 9, 10, 99, 100, 1234, 65535] {
        assert_eq!(decimal_string(n), n.to_string());
    }
}
