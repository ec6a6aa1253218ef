use minigrep::lines::split_first_line;
use minigrep::{contains, search};

/// What the standard library's own line splitting and containment give.
fn by_std<'a>(query: &str, contents: &'a str) -> Vec<&'a str> {
    contents.lines().filter(|line| line.contains(query)).collect()
}

#[test]
fn case_sensitive() {
    let query = "duct";
    let contents = "\
Rust:
safe, fast, productive.
Pick three.";

    assert_eq!(vec!["safe, fast, productive."], search(query, contents));
}

#[test]
fn search_is_exact_about_case() {
    let contents = "\
Rust:
safe, fast, productive.
Pick three.
Trust me.";

    assert_eq!(search("rUsT", contents), Vec::<&str>::new());
    assert_eq!(search("rust", contents), vec!["Trust me."]);
    assert_eq!(search("Rust", contents), vec!["Rust:"]);
}

#[test]
fn absent_query_finds_nothing() {
    let contents = "Rust:\nsafe, fast, productive.\nPick three.";
    assert_eq!(search("monomorphization", contents), Vec::<&str>::new());
}

#[test]
fn empty_contents_have_no_lines() {
    assert_eq!(search("a", ""), Vec::<&str>::new());
    assert_eq!(search("", ""), Vec::<&str>::new());
}

#[test]
fn empty_query_finds_every_line() {
    assert_eq!(search("", "one\n\nthree"), vec!["one", "", "three"]);
    assert_eq!(search("", "\n"), vec![""]);
    assert_eq!(search("", "\n\n"), vec!["", ""]);
}

#[test]
fn last_line_needs_no_line_feed() {
    assert_eq!(search("b", "a\nb"), vec!["b"]);
    assert_eq!(search("b", "a\nb\n"), vec!["b"]);
    assert_eq!(search("", "a\nb\n"), vec!["a", "b"]);
}

#[test]
fn empty_lines_are_kept() {
    assert_eq!(search("", "a\n\n\nb"), vec!["a", "", "", "b"]);
    assert_eq!(search("a", "\n\na\n\n"), vec!["a"]);
}

#[test]
fn carriage_return_before_line_feed_is_dropped() {
    assert_eq!(search("", "one\r\ntwo\r\n"), vec!["one", "two"]);
    assert_eq!(search("e\r", "one\r\ntwo\r\n"), Vec::<&str>::new());
    assert_eq!(search("", "\r\n"), vec![""]);
    assert_eq!(search("", "a\r\r\nb"), vec!["a\r", "b"]);
}

#[test]
fn carriage_return_elsewhere_is_kept() {
    assert_eq!(search("", "one\rtwo"), vec!["one\rtwo"]);
    assert_eq!(search("", "last\r"), vec!["last\r"]);
    assert_eq!(search("\r", "a\nlast\r"), vec!["last\r"]);
    assert_eq!(search("", "\r"), vec!["\r"]);
}

#[test]
fn a_line_that_matches_often_comes_once() {
    assert_eq!(search("an", "banana\nbandana\nplum"), vec!["banana", "bandana"]);
}

#[test]
fn equal_lines_come_as_often_as_they_stand() {
    assert_eq!(search("x", "x\ny\nx\nx"), vec!["x", "x", "x"]);
}

#[test]
fn query_does_not_reach_across_lines() {
    assert_eq!(search("a\nb", "a\nb"), Vec::<&str>::new());
    assert_eq!(search("\n", "a\nb\n"), Vec::<&str>::new());
}

#[test]
fn query_longer_than_a_line() {
    assert_eq!(search("abcd", "abc\nabcd\nab"), vec!["abcd"]);
}

#[test]
fn query_at_both_ends_of_a_line() {
    assert_eq!(search("ab", "abxx\nxxab\nxabx\nab\nba"), vec!["abxx", "xxab", "xabx", "ab"]);
}

#[test]
fn text_beyond_ascii() {
    let contents = "na\u{ef}ve caf\u{e9}\n\u{65e5}\u{672c}\u{8a9e}\n\u{1f980} crab\r\nplain";
    assert_eq!(search("\u{e9}", contents), vec!["na\u{ef}ve caf\u{e9}"]);
    assert_eq!(search("\u{672c}", contents), vec!["\u{65e5}\u{672c}\u{8a9e}"]);
    assert_eq!(search("\u{1f980}", contents), vec!["\u{1f980} crab"]);
    assert_eq!(search("\u{1f981}", contents), Vec::<&str>::new());
    assert_eq!(search("a", contents), vec!["na\u{ef}ve caf\u{e9}", "\u{1f980} crab", "plain"]);
}

#[test]
fn bytes_shared_between_characters_do_not_match() {
    // U+00E9 is C3 A9 and U+00A9 is C2 A9: one byte in common, no character.
    assert_eq!(search("\u{a9}", "caf\u{e9}"), Vec::<&str>::new());
    // U+0100 is C4 80 and U+0400 is D0 80.
    assert_eq!(search("\u{400}", "\u{100}"), Vec::<&str>::new());
    assert!(!contains("\u{20ac}", "\u{20ad}"));
}

#[test]
fn returned_lines_are_slices_of_the_contents() {
    let contents = String::from("alpha\nbeta\r\ngamma");
    let start = contents.as_ptr() as usize;
    let found = search("a", &contents);
    assert_eq!(found, vec!["alpha", "beta", "gamma"]);
    let offsets: Vec<usize> = found.iter().map(|line| line.as_ptr() as usize - start).collect();
    assert_eq!(offsets, vec![0, 6, 12]);
}

#[test]
fn search_agrees_with_the_standard_library() {
    let texts = [
        "",
        "\n",
        "\r",
        "\r\n",
        "\n\r",
        "a",
        "a\n",
        "a\r\n",
        "a\r",
        "a\n\nb",
        "a\r\n\r\nb\r\n",
        "ab\rcd\nef\r\r\ngh\n\r\nij",
        "Rust:\nsafe, fast, productive.\nPick three.\nTrust me.",
        "\u{3b1}\u{3b2}\u{3b3}\n\u{3b2}\r\n\u{3b1}\u{3b3}\n",
        "tab\there\n  spaces  \n\n",
    ];
    let queries = ["", "a", "b", "\r", "\n", "\r\n", "ab", "st", "\u{3b2}", " ", "e\n", "\t"];
    for contents in texts {
        for query in queries {
            assert_eq!(search(query, contents), by_std(query, contents), "{query:?} in {contents:?}");
        }
    }
}

#[test]
fn contains_agrees_with_the_standard_library() {
    let texts = ["", "a", "ab", "aab", "abab", "aaa", "\u{e9}t\u{e9}", "xyz\u{1f980}", "mississippi"];
    for text in texts {
        for pattern in texts {
            assert_eq!(contains(text, pattern), text.contains(pattern), "{pattern:?} in {text:?}");
        }
        for pattern in ["b", "ba", "ss", "ssip", "ppi", "pp i", "\u{1f980}", "t\u{e9}", "z"] {
            assert_eq!(contains(text, pattern), text.contains(pattern), "{pattern:?} in {text:?}");
        }
    }
}

#[test]
fn contains_finds_a_pattern_after_a_false_start() {
    assert!(contains("aaab", "aab"));
    assert!(contains("abababc", "ababc"));
    assert!(!contains("ababab", "ababc"));
    assert!(contains("anything", ""));
    assert!(contains("", ""));
    assert!(!contains("", "a"));
}

#[test]
fn first_line_and_the_rest() {
    assert_eq!(split_first_line("one\ntwo\nthree"), ("one", "two\nthree"));
    assert_eq!(split_first_line("one\r\ntwo"), ("one", "two"));
    assert_eq!(split_first_line("one"), ("one", ""));
    assert_eq!(split_first_line("one\r"), ("one\r", ""));
    assert_eq!(split_first_line("one\n"), ("one", ""));
    assert_eq!(split_first_line("\nrest"), ("", "rest"));
    assert_eq!(split_first_line("\r\nrest"), ("", "rest"));
    assert_eq!(split_first_line(""), ("", ""));
    assert_eq!(split_first_line("\u{e9}\r\n\u{e8}"), ("\u{e9}", "\u{e8}"));
}

#[test]
fn returned_lines_contain_the_query_and_the_others_do_not() {
    let contents = "spam\neggs and spam\nham\n\nspa\nSPAM\nspam";
    let query = "spam";
    let found = search(query, contents);
    assert_eq!(found, vec!["spam", "eggs and spam", "spam"]);
    for line in &found {
        assert!(line.contains(query));
    }
    for line in contents.lines() {
        if !found.contains(&line) {
            assert!(!line.contains(query));
        }
    }
}

#[test]
fn returned_lines_keep_the_order_of_the_contents() {
    let contents = "b1\na\nb2\nb1\nc\nb3";
    let found = search("b", contents);
    assert_eq!(found, vec!["b1", "b2", "b1", "b3"]);
    let all: Vec<&str> = contents.lines().collect();
    let mut from = 0;
    for line in &found {
        let place = all[from..].iter().position(|other| other == line);
        assert!(place.is_some());
        from += place.unwrap() + 1;
    }
}

#[test]
fn searching_twice_gives_the_same() {
    let contents = "one\ntwo\nthree\nfour";
    let first = search("o", contents);
    let second = search("o", contents);
    assert_eq!(first, second);
    assert_eq!(first, vec!["one", "two", "four"]);
}

#[test]
fn a_long_text_is_searched_in_one_pass() {
    let mut contents = String::new();
    for i in 0..60_000 {
        contents.push_str("line number ");
        contents.push_str(&i.to_string());
        contents.push_str(if i % 2 == 0 { "\n" } else { "\r\n" });
    }
    let found = search("999", &contents);
    assert_eq!(found.len(), by_std("999", &contents).len());
    assert_eq!(found.len(), 114);
    assert_eq!(found[0], "line number 999");
    assert_eq!(search("line", &contents).len(), 60_000);
}
