use lun::config::program;
use lun::ninja::{
    extract_target_from_failed_line, normalized, parse_ninja_output, same_description, Target,
};
use lun::order::{bytes_le_exec, sorted_order};
use lun::run::need_rerun;
use lun::sorting::sorted_places;
use lun::text::{
    clone_opt, clone_strings, contains_str, find, has_at, is_whitespace, join, lines, replace_all,
    split_whitespace, str_eq, to_chars, trim_bounds,
};

fn strings(names: &[&str]) -> Vec<String> {
    names.iter().map(|n| n.to_string()).collect()
}

fn chars(s: &str) -> Vec<char> {
    s.chars().collect()
}

#[test]
fn words() {
    assert_eq!(split_whitespace("lint -v  --"), strings(&["lint", "-v", "--"]));
    assert_eq!(split_whitespace("  a\tb\nc\r\n"), strings(&["a", "b", "c"]));
    assert_eq!(split_whitespace(""), Vec::<String>::new());
    assert_eq!(split_whitespace(" \u{a0}\u{2003}\u{3000} "), Vec::<String>::new());
    assert_eq!(split_whitespace("é\u{2028}ü\u{85}x"), strings(&["é", "ü", "x"]));
    // a zero-width space is no white space
    assert_eq!(split_whitespace("a\u{200b}b"), strings(&["a\u{200b}b"]));
    for text in ["", " ", "a", " a b ", "\u{1680}x\u{205f}y\u{202f}", "a\u{b}b\u{c}c"] {
        let std_words: Vec<String> = text.split_whitespace().map(|w| w.to_string()).collect();
        assert_eq!(split_whitespace(text), std_words);
    }
}

#[test]
fn white_space() {
    for u in 0..0x3100u32 {
        if let Some(c) = char::from_u32(u) {
            assert_eq!(is_whitespace(c), c.is_whitespace(), "U+{u:04X}");
        }
    }
}

#[test]
fn string_helpers() {
    assert!(str_eq("abc", "abc"));
    assert!(!str_eq("abc", "abd"));
    assert!(!str_eq("abc", "ab"));
    assert!(contains_str(&strings(&["a", "b"]), "b"));
    assert!(!contains_str(&strings(&["a", "b"]), "ab"));
    assert!(!contains_str(&Vec::new(), ""));
    assert_eq!(clone_strings(&strings(&["a", "b"])), strings(&["a", "b"]));
    assert_eq!(clone_opt(&Some("x".to_string())), Some("x".to_string()));
    assert_eq!(clone_opt(&None), None);
    assert_eq!(to_chars("aé"), vec!['a', 'é']);
    assert_eq!(join(&strings(&["a", "b", "c"]), ", "), "a, b, c");
    assert_eq!(join(&strings(&["a"]), ", "), "a");
    assert_eq!(join(&Vec::new(), ", "), "");
}

#[test]
fn searching() {
    assert!(has_at(&chars("abcabc"), 3, &chars("abc")));
    assert!(!has_at(&chars("abcabc"), 4, &chars("abc")));
    assert!(has_at(&chars("abc"), 3, &chars("")));
    assert!(!has_at(&chars("abc"), 4, &chars("")));
    assert_eq!(find(&chars("xxabcabc"), &chars("abc")), Some(2));
    assert_eq!(find(&chars("abc"), &chars("abcd")), None);
    assert_eq!(find(&chars("abc"), &chars("d")), None);
    assert_eq!(find(&chars("abc"), &chars("")), Some(0));
    assert_eq!(find(&chars(""), &chars("")), Some(0));
    assert_eq!(find(&chars("aab"), &chars("ab")), Some(1));
}

#[test]
fn replacing() {
    assert_eq!(replace_all("lint {{color}} --", "{{color}}", "always"), "lint always --");
    assert_eq!(replace_all("{{color}}{{color}}", "{{color}}", "x"), "xx");
    assert_eq!(replace_all("a {{color} b", "{{color}}", "x"), "a {{color} b");
    assert_eq!(replace_all("aaa", "aa", "b"), "ba");
    assert_eq!(replace_all("aaaa", "aa", "b"), "bb");
    assert_eq!(replace_all("abab", "ab", ""), "");
    assert_eq!(replace_all("", "ab", "c"), "");
    assert_eq!(replace_all("a", "ab", "c"), "a");
    assert_eq!(replace_all("héllo wörld", "ö", "oe"), "héllo woerld");
    for (s, from, to) in [("abcabc", "bc", "x"), ("aXbXc", "X", "--"), ("xyz", "q", "r")] {
        assert_eq!(replace_all(s, from, to), s.replace(from, to));
    }
}

#[test]
fn cutting_lines() {
    assert_eq!(lines("a\nb\n"), vec!["a", "b"]);
    assert_eq!(lines("a\r\nb"), vec!["a", "b"]);
    assert_eq!(lines("a\n\nb"), vec!["a", "", "b"]);
    assert_eq!(lines(""), Vec::<String>::new());
    assert_eq!(lines("\n"), vec![""]);
    assert_eq!(lines("\r\n"), vec![""]);
    assert_eq!(lines("a\rb\n"), vec!["a\rb"]);
    assert_eq!(lines("a\r"), vec!["a\r"]);
    assert_eq!(lines("a\r\r\n"), vec!["a\r"]);
    for s in ["one\ntwo\r\nthree", "\n\n", "x\r\n\r\ny\n", "é\nü"] {
        let expected: Vec<String> = s.lines().map(|l| l.to_string()).collect();
        assert_eq!(lines(s), expected);
    }
}

#[test]
fn trimming() {
    assert_eq!(trim_bounds(&chars("  ab c \n")), (2, 6));
    assert_eq!(trim_bounds(&chars("abc")), (0, 3));
    assert_eq!(trim_bounds(&chars(" a")), (1, 2));
    assert_eq!(trim_bounds(&chars("a ")), (0, 1));
    assert_eq!(trim_bounds(&chars("   ")), (3, 3));
    assert_eq!(trim_bounds(&chars("")), (0, 0));
}

#[test]
fn byte_order() {
    assert!(bytes_le_exec(b"", b""));
    assert!(bytes_le_exec(b"", b"a"));
    assert!(!bytes_le_exec(b"a", b""));
    assert!(bytes_le_exec(b"a", b"ab"));
    assert!(bytes_le_exec(b"ab", b"b"));
    assert!(!bytes_le_exec(b"b", b"ab"));
    assert!(bytes_le_exec(b"abc", b"abc"));
    let keys: Vec<Vec<u8>> = ["b", "a", "ab", "", "a"].iter().map(|k| k.as_bytes().to_vec()).collect();
    assert_eq!(sorted_order(&keys), vec![3, 1, 4, 2, 0]);
    assert_eq!(sorted_order(&Vec::new()), Vec::<usize>::new());
}

#[test]
fn sorting_by_keys() {
    assert_eq!(sorted_places(&vec![5usize, 3, 9, 3, 1]), vec![4, 1, 3, 0, 2]);
    assert_eq!(sorted_places(&vec![(1u16, 5u128), (0, 9), (1, 2), (0, 9)]), vec![1, 3, 2, 0]);
    assert_eq!(sorted_places(&Vec::<usize>::new()), Vec::<usize>::new());
    let keys: Vec<usize> = (0..1000).map(|i| (i * 7919) % 1009).collect();
    let order = sorted_places(&keys);
    let mut seen = order.clone();
    seen.sort();
    assert_eq!(seen, (0..1000).collect::<Vec<_>>());
    assert!(order.windows(2).all(|w| keys[w[0]] <= keys[w[1]]));
}

#[test]
fn programs() {
    assert_eq!(program("cargo clippy --all"), "cargo");
    assert_eq!(program("  lint"), "lint");
    assert_eq!(program(""), "");
    assert_eq!(program("  "), "  ");
}

#[test]
fn reruns() {
    let path = |p: &str| -> Vec<String> { p.split('/').map(|c| c.to_string()).collect() };
    assert!(need_rerun(false, &vec![path("src/a.rs")]));
    assert!(!need_rerun(true, &vec![path("src/a.rs")]));
    assert!(!need_rerun(false, &vec![path(".git/index"), path("x/target/debug/a"), path(".lun/cache")]));
    assert!(need_rerun(false, &vec![path(".git/index"), path("src/target.rs")]));
    assert!(!need_rerun(false, &Vec::new()));
}

#[test]
fn failed_lines() {
    let dir = ".lun/ninja";
    assert_eq!(
        extract_target_from_failed_line("FAILED: .lun/ninja/abc ", dir),
        Some(".lun/ninja/abc".to_string())
    );
    assert_eq!(
        extract_target_from_failed_line("FAILED: ninja/abc", dir),
        Some(".lun/ninja/abc".to_string())
    );
    assert_eq!(
        extract_target_from_failed_line("FAILED: ninjaabc", dir),
        Some(".lun/ninja/ninjaabc".to_string())
    );
    assert_eq!(extract_target_from_failed_line("FAILED: other/abc", dir), None);
    assert_eq!(extract_target_from_failed_line("FAILED:.lun/ninja/abc", dir), None);
    assert_eq!(extract_target_from_failed_line("ninja: build stopped", dir), None);
    assert_eq!(extract_target_from_failed_line("", dir), None);
    assert_eq!(extract_target_from_failed_line("FAILED: ", "") , Some(String::new()));
}

#[test]
fn descriptions() {
    assert_eq!(normalized("  lint   --  a.py "), "lint -- a.py");
    assert_eq!(normalized(""), "");
    assert!(same_description("lint --  a.py", "lint -- a.py"));
    assert!(same_description("lint -- a.py b.py", "lint -- a.py"));
    assert!(same_description("lint --", "lint -- a.py"));
    assert!(!same_description("lint -- b.py", "lint -- a.py"));
}

#[test]
fn ninja_output() {
    let known = vec![
        Target { description: "lint -- a.py".to_string(), name: "$builddir/a".to_string() },
        Target { description: "lint -- b.py".to_string(), name: "$builddir/b".to_string() },
        Target { description: "fmt -- c.py".to_string(), name: "$builddir/c".to_string() },
    ];
    let stdout = "[1/3] Running lint -- b.py\n[2/3] Running  lint --   a.py\nninja: Running x\n[3/3] Touching\n[3/3] Running lint -- b.py\n";
    assert_eq!(parse_ninja_output(stdout, "", &known, "$builddir"), strings(&["$builddir/b", "$builddir/a"]));
    let stderr = "FAILED: $builddir/b\nsome output\n";
    assert_eq!(parse_ninja_output(stdout, stderr, &known, "$builddir"), strings(&["$builddir/a"]));
    assert_eq!(parse_ninja_output("", stderr, &known, "$builddir"), Vec::<String>::new());
    assert_eq!(parse_ninja_output("[1/1] Running go vet", "", &known, "$builddir"), Vec::<String>::new());
}
