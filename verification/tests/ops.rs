use codebake::ops::data_format::{
    from_base64, from_binary, from_decimal, from_hex, from_octal, from_radix, regex_match,
    regex_replace, to_base64, to_binary, to_decimal, to_hex, to_octal, to_radix,
};
use codebake::ops::textual::{reverse, rot13};
use codebake::ops::utility::{drop_bytes, take_bytes};
use codebake::ops::{operations, run};
use codebake::{Dish, DishData, DishError, Operation, OperationArg, OperationArguments};

static ALPHABET: &str = "abcdefghijklmnopqrstuvwxyzABCDEFGHIJKLMNOPQRSTUVWXYZ";

fn text(data: &DishData) -> String {
    match data {
        DishData::Str(s) => s.clone(),
        DishData::Bin(b) => panic!("expected text, got bytes {:?}", b),
    }
}

fn bytes(data: &DishData) -> Vec<u8> {
    match data {
        DishData::Bin(b) => b.clone(),
        DishData::Str(s) => panic!("expected bytes, got text {:?}", s),
    }
}

fn message(r: Result<(), DishError>) -> String {
    match r {
        Ok(()) => panic!("expected an error"),
        Err(e) => e.0,
    }
}

fn with_integer(name: &str, n: i64) -> OperationArguments {
    let mut args = OperationArguments::new();
    args.insert(name, OperationArg::Integer(n));
    args
}

#[test]
fn test_to_octal() {
    let mut data = DishData::Bin(vec![42]);
    let _expected = DishData::Str(String::from("52"));
    assert!(matches!(to_octal(&OperationArguments::empty(), &mut data), Ok(())));
    assert!(matches!(data, _expected));
}

#[test]
fn test_from_octal() {
    let mut data = DishData::Str("52".to_string());
    let _expected = DishData::Bin(vec![42]);
    assert!(matches!(from_octal(&OperationArguments::empty(), &mut data), Ok(())));
    assert!(matches!(data, _expected));
}

#[test]
fn test_to_hex() {
    let mut data = DishData::Bin(vec![15]);
    let _expected = DishData::Str(String::from("0f"));
    assert!(matches!(to_hex(&OperationArguments::empty(), &mut data), Ok(())));
    assert!(matches!(data, _expected));

    let mut data = DishData::Bin(vec![26]);
    let _expected = DishData::Str(String::from("1a"));
    assert!(matches!(to_hex(&OperationArguments::empty(), &mut data), Ok(())));
    assert!(matches!(data, _expected));
}

#[test]
fn test_from_hex() {
    let mut data = DishData::Str(String::from("0f"));
    let _expected = DishData::Bin(vec![15]);

    assert!(matches!(from_hex(&OperationArguments::empty(), &mut data), Ok(())));
    assert!(matches!(data, _expected));

    let mut data = DishData::Str(String::from("1a"));
    let _expected = DishData::Bin(vec![26]);
    assert!(matches!(from_hex(&OperationArguments::empty(), &mut data), Ok(())));
    assert!(matches!(data, _expected));
}

#[test]
fn test_from_binary() {
    let mut data = DishData::Str("01101000 01100101 01101100 01101100 01101111".to_string());
    let _expected = DishData::Bin("hello".as_bytes().to_vec());

    assert!(matches!(from_binary(&OperationArguments::empty(), &mut data), Ok(())));
    assert!(matches!(data, _expected));
}

#[test]
fn test_to_binary() {
    let mut data = DishData::Str("hello".to_string());
    let _expected =
        DishData::Str("01101000 01100101 01101100 01101100 01101111".to_string());

    assert!(matches!(to_binary(&OperationArguments::empty(), &mut data), Ok(())));
    assert!(matches!(data, _expected));
}

#[test]
fn test_rot13() {
    let _expected = vec![
        DishData::Str("bcdefghijklmnopqrstuvwxyzaBCDEFGHIJKLMNOPQRSTUVWXYZA".to_string()),
        DishData::Str("cdefghijklmnopqrstuvwxyzabCDEFGHIJKLMNOPQRSTUVWXYZAB".to_string()),
        DishData::Str("defghijklmnopqrstuvwxyzabcDEFGHIJKLMNOPQRSTUVWXYZABC".to_string()),
        DishData::Str("efghijklmnopqrstuvwxyzabcdEFGHIJKLMNOPQRSTUVWXYZABCD".to_string()),
        DishData::Str("fghijklmnopqrstuvwxyzabcdeFGHIJKLMNOPQRSTUVWXYZABCDE".to_string()),
        DishData::Str("ghijklmnopqrstuvwxyzabcdefGHIJKLMNOPQRSTUVWXYZABCDEF".to_string()),
        DishData::Str("hijklmnopqrstuvwxyzabcdefgHIJKLMNOPQRSTUVWXYZABCDEFG".to_string()),
        DishData::Str("ijklmnopqrstuvwxyzabcdefghIJKLMNOPQRSTUVWXYZABCDEFGH".to_string()),
        DishData::Str("jklmnopqrstuvwxyzabcdefghiJKLMNOPQRSTUVWXYZABCDEFGHI".to_string()),
        DishData::Str("klmnopqrstuvwxyzabcdefghijKLMNOPQRSTUVWXYZABCDEFGHIJ".to_string()),
        DishData::Str("lmnopqrstuvwxyzabcdefghijkLMNOPQRSTUVWXYZABCDEFGHIJK".to_string()),
        DishData::Str("nopqrstuvwxyzabcdefghijklmNOPQRSTUVWXYZABCDEFGHIJKLM".to_string()),
        DishData::Str("mnopqrstuvwxyzabcdefghijklMNOPQRSTUVWXYZABCDEFGHIJKL".to_string()),
    ];

    for (i, _exp) in _expected.iter().enumerate() {
        let mut args = OperationArguments::new();
        let mut data = DishData::Str(ALPHABET.to_string());
        args.insert("n", (i + 1) as i64);
        assert!(matches!(rot13(&args, &mut data), Ok(())));
        assert!(matches!(data, _exp));
    }
}

#[test]
fn test_reverse() {
    let mut data = DishData::Str(ALPHABET.to_string());
    let _expected =
        DishData::Str("ZYXWVUTSRQPONMLKJIHGFEDCBAzyxwvutsrqponmlkjihgfedcba".to_string());
    assert!(matches!(reverse(&OperationArguments::empty(), &mut data), Ok(())));
    assert!(matches!(data, _exp));
}

#[test]
fn rot13_moves_letters_by_the_count() {
    let expected = [
        "bcdefghijklmnopqrstuvwxyzaBCDEFGHIJKLMNOPQRSTUVWXYZA",
        "cdefghijklmnopqrstuvwxyzabCDEFGHIJKLMNOPQRSTUVWXYZAB",
        "defghijklmnopqrstuvwxyzabcDEFGHIJKLMNOPQRSTUVWXYZABC",
    ];
    for (i, exp) in expected.iter().enumerate() {
        let args = with_integer("n", (i + 1) as i64);
        let mut data = DishData::Str(ALPHABET.to_string());
        assert!(rot13(&args, &mut data).is_ok());
        assert_eq!(text(&data), *exp);
    }
    let args = with_integer("n", 13);
    let mut data = DishData::Str("Hello, World! \u{e9}".to_string());
    assert!(rot13(&args, &mut data).is_ok());
    assert_eq!(text(&data), "Uryyb, Jbeyq! \u{e9}");
    let mut data = DishData::Bin(vec![65, 90, 97, 122, 0, 255]);
    assert!(rot13(&with_integer("n", 1), &mut data).is_ok());
    assert_eq!(bytes(&data), vec![66, 65, 98, 97, 0, 255]);
}

#[test]
fn rot13_with_a_negative_count_leaves_the_alphabet() {
    let mut data = DishData::Bin(vec![65, 66, 97]);
    assert!(rot13(&with_integer("n", -1), &mut data).is_ok());
    assert_eq!(bytes(&data), vec![64, 65, 96]);
    let mut data = DishData::Bin(vec![90]);
    assert!(rot13(&with_integer("n", i64::MAX), &mut data).is_ok());
    assert_eq!(bytes(&data), vec![(((90i128 + i64::MAX as i128 - 65) % 26) + 65) as u8]);
}

#[test]
fn rot13_there_and_back_gives_the_data_back() {
    for (n, m) in [(13i64, 13i64), (1, 25), (0, 26), (30, 22), (26, 0)] {
        let mut data = DishData::Str("Hello, World! \u{e9} az AZ".to_string());
        assert!(rot13(&with_integer("n", n), &mut data).is_ok());
        assert!(rot13(&with_integer("n", m), &mut data).is_ok());
        assert_eq!(text(&data), "Hello, World! \u{e9} az AZ");
        let all: Vec<u8> = (0u8..=255).collect();
        let mut data = DishData::Bin(all.clone());
        assert!(rot13(&with_integer("n", n), &mut data).is_ok());
        assert!(rot13(&with_integer("n", m), &mut data).is_ok());
        assert_eq!(bytes(&data), all);
    }
}

#[test]
fn rot13_needs_its_argument() {
    let mut data = DishData::Str("abc".to_string());
    assert_eq!(message(rot13(&OperationArguments::empty(), &mut data)), "empty arguments");
    assert_eq!(message(rot13(&OperationArguments::new(), &mut data)), "no such argument");
    let mut args = OperationArguments::new();
    args.insert("n", OperationArg::String("1".to_string()));
    assert_eq!(message(rot13(&args, &mut data)), "wrong argument type");
    assert_eq!(text(&data), "abc");
}

#[test]
fn reverse_turns_text_and_bytes_around() {
    let none = OperationArguments::empty();
    let mut data = DishData::Str(ALPHABET.to_string());
    assert!(reverse(&none, &mut data).is_ok());
    assert_eq!(text(&data), "ZYXWVUTSRQPONMLKJIHGFEDCBAzyxwvutsrqponmlkjihgfedcba");
    let mut data = DishData::Str("a\u{e9}b".to_string());
    assert!(reverse(&none, &mut data).is_ok());
    assert_eq!(text(&data), "b\u{e9}a");
    let mut data = DishData::Bin(vec![1, 2, 3]);
    assert!(reverse(&none, &mut data).is_ok());
    assert_eq!(bytes(&data), vec![3, 2, 1]);
    let mut data = DishData::Str(String::new());
    assert!(reverse(&none, &mut data).is_ok());
    assert_eq!(text(&data), "");
}

#[test]
fn bytes_are_written_in_each_radix() {
    let none = OperationArguments::empty();
    let mut data = DishData::Bin(vec![42]);
    assert!(to_octal(&none, &mut data).is_ok());
    assert_eq!(text(&data), "52");
    let mut data = DishData::Bin(vec![15, 26, 0, 255]);
    assert!(to_hex(&none, &mut data).is_ok());
    assert_eq!(text(&data), "f 1a 0 ff");
    let mut data = DishData::Str("hello".to_string());
    assert!(to_binary(&none, &mut data).is_ok());
    assert_eq!(text(&data), "1101000 1100101 1101100 1101100 1101111");
    let mut data = DishData::Str("hi\u{e9}".to_string());
    assert!(to_decimal(&none, &mut data).is_ok());
    assert_eq!(text(&data), "104 105 195 169");
    let mut data = DishData::Bin(vec![]);
    assert!(to_decimal(&none, &mut data).is_ok());
    assert_eq!(text(&data), "");
}

#[test]
fn to_radix_agrees_with_the_formatter_of_the_radix_crate() {
    for radix in 2u8..=36 {
        let mut data = DishData::Bin(vec![0, 1, 35, 36, 200, 255]);
        assert!(to_radix(&with_integer("radix", radix as i64), &mut data).is_ok());
        let expected: Vec<String> = [0u8, 1, 35, 36, 200, 255]
            .iter()
            .map(|x| format!("{}", radix_fmt::radix(*x, radix)))
            .collect();
        assert_eq!(text(&data), expected.join(" "));
    }
    let mut data = DishData::Bin(vec![35, 6]);
    assert!(to_radix(&with_integer("radix", 3), &mut data).is_ok());
    assert_eq!(text(&data), "1022 20");
    let mut data = DishData::Bin(vec![35]);
    assert!(to_radix(&with_integer("radix", 36), &mut data).is_ok());
    assert_eq!(text(&data), "z");
}

#[test]
fn to_radix_refuses_a_radix_it_cannot_write() {
    let mut data = DishData::Bin(vec![35]);
    assert_eq!(message(to_radix(&with_integer("radix", 37), &mut data)), "unsupported radix `37`");
    assert_eq!(message(to_radix(&with_integer("radix", 1), &mut data)), "unsupported radix `1`");
    assert_eq!(message(to_radix(&with_integer("radix", 0), &mut data)), "unsupported radix `0`");
    assert_eq!(message(to_radix(&with_integer("radix", 64), &mut data)), "unsupported radix `64`");
    assert_eq!(
        message(to_radix(&with_integer("radix", -1), &mut data)),
        "invalid radix. out of range integral type conversion attempted"
    );
    assert_eq!(
        message(to_radix(&with_integer("radix", 256), &mut data)),
        "invalid radix. out of range integral type conversion attempted"
    );
    assert_eq!(message(to_radix(&OperationArguments::new(), &mut data)), "no such argument");
    assert_eq!(bytes(&data), vec![35]);
}

#[test]
fn text_is_read_in_each_radix() {
    let none = OperationArguments::empty();
    let mut data = DishData::Str("52".to_string());
    assert!(from_octal(&none, &mut data).is_ok());
    assert_eq!(text(&data), "*");
    let mut data = DishData::Str("0f".to_string());
    assert!(from_hex(&none, &mut data).is_ok());
    assert_eq!(text(&data), "\u{f}");
    let mut data = DishData::Str("1A ff".to_string());
    assert!(from_hex(&none, &mut data).is_ok());
    assert_eq!(bytes(&data), vec![26, 255]);
    let mut data =
        DishData::Str("01101000 01100101 01101100 01101100 01101111".to_string());
    assert!(from_binary(&none, &mut data).is_ok());
    assert_eq!(text(&data), "hello");
    let mut data = DishData::Str("  104\t105 \n +33 ".to_string());
    assert!(from_decimal(&none, &mut data).is_ok());
    assert_eq!(text(&data), "hi!");
    let mut data = DishData::Str("195 169".to_string());
    assert!(from_decimal(&none, &mut data).is_ok());
    assert_eq!(text(&data), "\u{e9}");
    let mut data = DishData::Str("".to_string());
    assert!(from_decimal(&none, &mut data).is_ok());
    assert_eq!(text(&data), "");
    let mut data = DishData::Str("z 10".to_string());
    assert!(from_radix(&with_integer("radix", 36), &mut data).is_ok());
    assert_eq!(text(&data), "#$");
}

#[test]
fn reading_in_a_radix_fails_as_the_standard_parser_does() {
    let none = OperationArguments::empty();
    for (input, radix) in [
        ("256", 10u32),
        ("12 999", 10),
        ("8", 8),
        ("g", 16),
        ("+", 10),
        ("-", 10),
        ("-1", 10),
        ("1_0", 10),
        ("999z", 10),
        ("99z", 10),
        ("\u{e9}", 10),
        ("2", 2),
        ("111111111", 2),
    ] {
        let expected = input
            .split_whitespace()
            .map(|w| u8::from_str_radix(w, radix))
            .collect::<Result<Vec<u8>, _>>()
            .unwrap_err()
            .to_string();
        let mut data = DishData::Str(input.to_string());
        let r = from_radix(&with_integer("radix", radix as i64), &mut data);
        assert_eq!(message(r), expected, "input {:?} radix {}", input, radix);
        assert_eq!(text(&data), input);
    }
    let mut data = DishData::Str("256".to_string());
    assert_eq!(
        message(from_decimal(&none, &mut data)),
        "number too large to fit in target type"
    );
    let mut data = DishData::Str("1g".to_string());
    assert_eq!(message(from_hex(&none, &mut data)), "invalid digit found in string");
    let mut data = DishData::Bin(vec![1]);
    assert_eq!(
        message(from_octal(&none, &mut data)),
        "cannot convert binary data from radix 8"
    );
}

#[test]
fn reading_in_a_radix_agrees_with_the_standard_parser() {
    for radix in 2u32..=36 {
        for word in ["0", "1", "7", "10", "11", "ff", "FF", "zz", "7F", "+9", "100", "377", "255"] {
            let mut data = DishData::Str(word.to_string());
            let r = from_radix(&with_integer("radix", radix as i64), &mut data);
            match u8::from_str_radix(word, radix) {
                Ok(b) => {
                    assert!(r.is_ok(), "word {:?} radix {}", word, radix);
                    match String::from_utf8(vec![b]) {
                        Ok(s) => assert_eq!(text(&data), s),
                        Err(_) => assert_eq!(bytes(&data), vec![b]),
                    }
                }
                Err(e) => assert_eq!(message(r), e.to_string(), "word {:?} radix {}", word, radix),
            }
        }
    }
}

#[test]
fn from_radix_refuses_a_radix_it_cannot_read() {
    let mut data = DishData::Str("1".to_string());
    assert_eq!(message(from_radix(&with_integer("radix", 1), &mut data)), "unsupported radix `1`");
    assert_eq!(message(from_radix(&with_integer("radix", 37), &mut data)), "unsupported radix `37`");
    assert_eq!(
        message(from_radix(&with_integer("radix", -2), &mut data)),
        "invalid radix. out of range integral type conversion attempted"
    );
    assert_eq!(
        message(from_radix(&with_integer("radix", 1 << 32), &mut data)),
        "invalid radix. out of range integral type conversion attempted"
    );
    let mut data = DishData::Bin(vec![1]);
    assert_eq!(
        message(from_radix(&with_integer("radix", 40), &mut data)),
        "cannot convert binary data from radix 40"
    );
    let mut data = DishData::Str(" \n ".to_string());
    assert!(from_radix(&with_integer("radix", 40), &mut data).is_ok());
    assert_eq!(text(&data), "");
}

#[test]
fn base64_goes_through_the_base64_crate() {
    let none = OperationArguments::empty();
    let mut data = DishData::Str("hello world".to_string());
    assert!(to_base64(&none, &mut data).is_ok());
    assert_eq!(text(&data), "aGVsbG8gd29ybGQ=");
    assert_eq!(text(&data), base64::encode("hello world"));
    assert!(from_base64(&none, &mut data).is_ok());
    assert_eq!(bytes(&data), b"hello world".to_vec());
    let mut data = DishData::Bin(vec![0, 255, 16]);
    assert!(to_base64(&none, &mut data).is_ok());
    assert_eq!(text(&data), "AP8Q");
}

#[test]
fn from_base64_reports_what_the_decoder_found() {
    let none = OperationArguments::empty();
    let mut data = DishData::Str("not base64!".to_string());
    let expected = format!("base64 decode error: {}", base64::decode("not base64!").unwrap_err());
    assert_eq!(message(from_base64(&none, &mut data)), expected);
    assert_eq!(text(&data), "not base64!");
    let mut data = DishData::Bin(vec![1, 2]);
    assert_eq!(message(from_base64(&none, &mut data)), "cannot convert binary data from base64");
    assert_eq!(bytes(&data), vec![1, 2]);
}

#[test]
fn regex_match_lists_the_matches() {
    let mut args = OperationArguments::new();
    args.insert("pattern", OperationArg::String("[0-9]+".to_string()));
    let mut data = DishData::Str("a1b22c333".to_string());
    assert!(regex_match(&args, &mut data).is_ok());
    assert_eq!(text(&data), "1\n22\n333");
    let mut data = DishData::Str("none".to_string());
    assert!(regex_match(&args, &mut data).is_ok());
    assert_eq!(text(&data), "");
    let mut data = DishData::Bin(vec![1]);
    assert_eq!(message(regex_match(&args, &mut data)), "dish should be string, got binary");
    let mut bad = OperationArguments::new();
    bad.insert("pattern", OperationArg::String("(".to_string()));
    let mut data = DishData::Bin(vec![1]);
    let expected = regex::Regex::new("(").unwrap_err().to_string();
    assert_eq!(message(regex_match(&bad, &mut data)), expected);
    assert_eq!(message(regex_match(&OperationArguments::new(), &mut data)), "no such argument");
}

#[test]
fn regex_replace_replaces_every_match() {
    let mut args = OperationArguments::new();
    args.insert("pattern", OperationArg::String("(\\w+)@(\\w+)".to_string()));
    args.insert("replacement", OperationArg::String("$2 at $1".to_string()));
    let mut data = DishData::Str("me@home you@work".to_string());
    assert!(regex_replace(&args, &mut data).is_ok());
    assert_eq!(text(&data), "home at me work at you");
    let mut data = DishData::Bin(vec![1]);
    assert_eq!(message(regex_replace(&args, &mut data)), "dish should be string, got binary");
    let mut partial = OperationArguments::new();
    partial.insert("pattern", OperationArg::String("a".to_string()));
    let mut data = DishData::Str("a".to_string());
    assert_eq!(message(regex_replace(&partial, &mut data)), "no such argument");
}

#[test]
fn take_bytes_keeps_the_first_bytes() {
    let mut data = DishData::Str("h\u{e9}llo".to_string());
    assert!(take_bytes(&with_integer("n", 2), &mut data).is_ok());
    assert_eq!(bytes(&data), vec![104, 195]);
    let mut data = DishData::Bin(vec![1, 2, 3]);
    assert!(take_bytes(&with_integer("n", 10), &mut data).is_ok());
    assert_eq!(bytes(&data), vec![1, 2, 3]);
    let mut data = DishData::Bin(vec![1, 2, 3]);
    assert!(take_bytes(&with_integer("n", 0), &mut data).is_ok());
    assert_eq!(bytes(&data), Vec::<u8>::new());
    let mut data = DishData::Bin(vec![1, 2, 3]);
    assert_eq!(
        message(take_bytes(&with_integer("n", -1), &mut data)),
        "amount to take must be nonnegative"
    );
    assert_eq!(bytes(&data), vec![1, 2, 3]);
}

#[test]
fn drop_bytes_drops_the_first_bytes() {
    let mut data = DishData::Str("hello".to_string());
    assert!(drop_bytes(&with_integer("n", 2), &mut data).is_ok());
    assert_eq!(bytes(&data), b"llo".to_vec());
    let mut data = DishData::Bin(vec![1, 2, 3]);
    assert!(drop_bytes(&with_integer("n", i64::MAX), &mut data).is_ok());
    assert_eq!(bytes(&data), Vec::<u8>::new());
    let mut data = DishData::Bin(vec![1, 2, 3]);
    assert!(drop_bytes(&with_integer("n", 0), &mut data).is_ok());
    assert_eq!(bytes(&data), vec![1, 2, 3]);
    let mut data = DishData::Bin(vec![1, 2, 3]);
    assert_eq!(
        message(drop_bytes(&with_integer("n", -5), &mut data)),
        "integer must be nonnegative"
    );
}

#[test]
fn arguments_are_found_by_name() {
    let mut args = OperationArguments::new();
    args.insert("n", 3i64);
    args.insert("s", "x".to_string());
    args.insert_arg("n", OperationArg::Integer(4));
    assert_eq!(args.get_integer("n").unwrap(), 4);
    assert_eq!(args.get_string("s").unwrap(), "x");
    assert_eq!(args.get_integer("s").unwrap_err().0, "wrong argument type");
    assert_eq!(args.get_string("n").unwrap_err().0, "wrong argument type");
    assert_eq!(args.get_string("t").unwrap_err().0, "no such argument");
    let mut none = OperationArguments::empty();
    none.insert("n", 1i64);
    assert_eq!(none.get_integer("n").unwrap_err().0, "empty arguments");
}

#[test]
fn a_dish_is_shown_with_its_data_cut_short() {
    assert_eq!(Dish::from_string("abc".to_string()).to_text(), "Dish(\"abc\")");
    let long: String = "x".repeat(81);
    let shown = format!("Dish(\"{}...\")", "x".repeat(80));
    assert_eq!(Dish::from_string(long).to_text(), shown);
    assert_eq!(
        Dish::from_string("y".repeat(80)).to_text(),
        format!("Dish(\"{}\")", "y".repeat(80))
    );
    assert_eq!(Dish::from_bytes(vec![104, 105]).to_text(), "Dish([hi])");
    assert_eq!(
        Dish::from_bytes(vec![255, 104]).to_text(),
        format!("Dish([{}])", String::from_utf8_lossy(&[255, 104]))
    );
    assert_eq!(
        Dish::from_bytes(vec![97; 40]).to_text(),
        format!("Dish([{}...])", "a".repeat(32))
    );
    assert_eq!(
        Dish::Failure(DishError("boom".to_string())).to_text(),
        "error: dish error: boom"
    );
}

#[test]
fn apply_turns_a_failing_operation_into_a_failure_that_sticks() {
    let none = OperationArguments::empty();
    let mut dish = Dish::from_string("not base64!".to_string());
    dish.apply(Operation::FromBase64, &none);
    let first = match &dish {
        Dish::Failure(e) => e.0.clone(),
        Dish::Success(_) => panic!("expected a failure"),
    };
    assert!(first.starts_with("base64 decode error: "));
    dish.apply(Operation::Reverse, &none);
    dish.apply(Operation::ToHex, &none);
    dish.apply(Operation::Rot13, &with_integer("n", 3));
    match &dish {
        Dish::Failure(e) => assert_eq!(e.0, first),
        Dish::Success(_) => panic!("expected a failure"),
    }
}

#[test]
fn data_is_compared_and_copied() {
    let a = DishData::Str("abc".to_string());
    assert_eq!(a, a.clone());
    assert!(a.equals(&a.copy()));
    assert_ne!(a, DishData::Bin(b"abc".to_vec()));
    assert!(!a.equals(&DishData::Bin(b"abc".to_vec())));
    assert!(!a.equals(&DishData::Str("abd".to_string())));
    assert!(DishData::Bin(vec![1, 2]).equals(&DishData::Bin(vec![1, 2])));
    assert!(!DishData::Bin(vec![1, 2]).equals(&DishData::Bin(vec![1])));
    assert_eq!(a.as_bytes(), b"abc");
    assert_eq!(OperationArg::from(5).to_text(), "integer");
    assert_eq!(OperationArg::from("x".to_string()).to_text(), "string");
}

#[test]
fn apply_transforms_a_success() {
    let mut dish = Dish::from_string("abc".to_string());
    dish.apply(Operation::Rot13, &with_integer("n", 1)).apply(
        Operation::Reverse,
        &OperationArguments::empty(),
    );
    match &dish {
        Dish::Success(data) => assert_eq!(text(data), "dcb"),
        Dish::Failure(_) => panic!("expected a success"),
    }
}

#[test]
fn run_dispatches_on_the_operation() {
    let mut data = DishData::Str("ab".to_string());
    assert!(run(Operation::ToDecimal, &OperationArguments::empty(), &mut data).is_ok());
    assert_eq!(text(&data), "97 98");
    assert!(run(Operation::FromDecimal, &OperationArguments::empty(), &mut data).is_ok());
    assert_eq!(text(&data), "ab");
    assert!(run(Operation::TakeBytes, &with_integer("n", 1), &mut data).is_ok());
    assert_eq!(bytes(&data), vec![97]);
}

#[test]
fn the_operations_are_listed_in_order() {
    let names: Vec<&str> = operations().iter().map(|oi| oi.name).collect();
    assert_eq!(
        names,
        vec![
            "rot13",
            "reverse",
            "from-base64",
            "to-base64",
            "from-decimal",
            "to-decimal",
            "from-octal",
            "to-octal",
            "to-hex",
            "from-hex",
            "from-binary",
            "to-binary",
            "from-radix",
            "to-radix",
        ]
    );
    let list = operations();
    assert_eq!(list[0].arguments.len(), 1);
    assert_eq!(list[0].arguments[0].0, "n");
    assert_eq!(list[1].arguments.len(), 0);
    assert!(list[0] == codebake::ops::textual::opinfo_rot13());
    assert!(list[0] != list[1]);
    assert_eq!(list[0].description, "rotates characters in the input by the specified amount");
    assert_eq!(list[0].authors, vec!["s-viour"]);
    assert_eq!(list[13].category, "Data Format");
}
