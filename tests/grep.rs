use colored::Colorize;
use kmp_grep::arguments::{Algo, Args, Color, Mode, ShowConfig};
use kmp_grep::grep::grep;
use kmp_grep::grep_error::ErrorType;
use kmp_grep::printer::{
    construct_line, construct_line_all, construct_reverse_line, layout_line, layout_line_all,
};

fn create_show_config() -> ShowConfig {
    ShowConfig {
        number: false,
        color: Color::Red,
        window_size: 10,
    }
}

fn new_with_default(substring: String, file: String) -> Args {
    Args {
        substring,
        file,
        mode: Mode::All,
        algo: Algo::Kmp,
        ignore_case: true,
        show_config: create_show_config(),
    }
}

fn create_wanted_string(vec: Vec<String>) -> String {
    vec.iter().fold(String::new(), |acc, v| acc + v)
}

fn create_lines(lines: Vec<&str>) -> Vec<String> {
    lines.into_iter().map(String::from).collect()
}

#[test]
fn left_test() {
    let substring = String::from("aba");
    let lines = create_lines(vec!["aba", "abacaba"]);

    let mut args = new_with_default(substring, String::from("input.txt"));
    args.mode = Mode::Left;

    match grep(args, &lines) {
        Ok(lines) => {
            assert_eq!(lines.len(), 2);
            assert_eq!(lines[0], create_wanted_string(vec!["aba".red().to_string()]));
            assert_eq!(
                lines[1],
                create_wanted_string(vec![
                    "aba".red().to_string(),
                    "c".to_string(),
                    "aba".to_string()
                ])
            );
        }
        Err(_) => panic!("not expected branch"),
    }
}

#[test]
fn right_test() {
    let substring = String::from("aba");
    let lines = create_lines(vec!["aba", "abacaba"]);

    let mut args = new_with_default(substring, String::from("input.txt"));
    args.mode = Mode::Right;

    match grep(args, &lines) {
        Ok(lines) => {
            assert_eq!(lines.len(), 2);
            assert_eq!(lines[0], create_wanted_string(vec!["aba".red().to_string()]));
            assert_eq!(
                lines[1],
                create_wanted_string(vec![
                    "aba".to_string(),
                    "c".to_string(),
                    "aba".red().to_string()
                ])
            );
        }
        Err(_) => panic!("not expected branch"),
    }
}

fn test_color(substring: String, color_mode: Color, file_data: Vec<&str>, wanted: Vec<Vec<String>>) {
    let lines = create_lines(file_data);

    let mut args = new_with_default(substring, String::from("input.txt"));
    args.show_config.color = color_mode;

    match grep(args, &lines) {
        Ok(lines) => {
            assert_eq!(lines.len(), wanted.len());
            for i in 0..lines.len() {
                assert_eq!(lines[i], create_wanted_string(wanted[i].clone()))
            }
        }
        Err(_) => panic!("not expected branch"),
    }
}

#[test]
fn red_test() {
    let first = vec!["aba".red().to_string()];
    let second = vec![
        "aba".red().to_string(),
        "c".to_string(),
        "aba".red().to_string(),
    ];
    test_color("aba".to_string(), Color::Red, vec!["aba", "abacaba"], vec![first, second]);
}

#[test]
fn green_color() {
    let first = vec!["aba".green().to_string()];
    let second = vec![
        "aba".green().to_string(),
        "c".to_string(),
        "aba".green().to_string(),
    ];
    test_color("aba".to_string(), Color::Green, vec!["aba", "abacaba"], vec![first, second]);
}

#[test]
fn blue_color() {
    let first = vec!["aba".blue().to_string()];
    let second = vec![
        "aba".blue().to_string(),
        "c".to_string(),
        "aba".blue().to_string(),
    ];
    test_color("aba".to_string(), Color::Blue, vec!["aba", "abacaba"], vec![first, second]);
}

#[test]
fn with_number() {
    let substring = String::from("Hello");
    let lines = create_lines(vec!["hehe", "Hello, World", "Hello"]);

    let mut args = new_with_default(substring, String::from("input.txt"));
    args.show_config.number = true;

    match grep(args, &lines) {
        Ok(lines) => {
            assert_eq!(lines.len(), 2);
            // Lower case, because the search ignores case
            assert_eq!(
                lines[0],
                create_wanted_string(vec![
                    "2:".to_string(),
                    "hello".red().to_string(),
                    ", world".to_string(),
                ])
            );
            assert_eq!(
                lines[1],
                create_wanted_string(vec!["3:".to_string(), "hello".red().to_string(),])
            );
        }
        Err(_) => panic!("not expected error"),
    }
}

#[test]
fn reverse() {
    let substring = String::from("no_line");
    let lines = create_lines(vec![
        "no_line",
        "this is true line",
        "a lot of text with no_line",
    ]);

    let mut args = new_with_default(substring, String::from("input.txt"));
    args.mode = Mode::Reverse;

    match grep(args, &lines) {
        Ok(lines) => {
            assert_eq!(lines.len(), 1);
            assert_eq!(
                lines[0],
                create_wanted_string(vec!["this is true line".to_string()])
            );
        }
        Err(_) => panic!("not expected branch"),
    }
}

#[test]
fn case_insensitive_pattern_matches_lower_case_line() {
    let lines = create_lines(vec!["hello, world"]);
    let mut args = new_with_default(String::from("Hello"), String::from("input.txt"));
    args.mode = Mode::Left;
    let out = grep(args, &lines).unwrap();
    assert_eq!(out, vec![create_wanted_string(vec![
        "hello".red().to_string(),
        ", world".to_string()
    ])]);
}

#[test]
fn case_kept_when_not_ignored() {
    let lines = create_lines(vec!["hello, world"]);
    let mut args = new_with_default(String::from("Hello"), String::from("input.txt"));
    args.ignore_case = false;
    assert!(matches!(grep(args, &lines), Err(ErrorType::NotFound)));
}

#[test]
fn whole_mode_needs_the_entire_line() {
    let lines = create_lines(vec!["aba", "abacaba", "ab", ""]);
    let mut args = new_with_default(String::from("aba"), String::from("input.txt"));
    args.mode = Mode::Whole;
    let out = grep(args, &lines).unwrap();
    assert_eq!(out, vec!["aba".red().to_string()]);
}

#[test]
fn nothing_found_is_an_error() {
    let lines = create_lines(vec!["xyz", "qqq"]);
    let args = new_with_default(String::from("aba"), String::from("input.txt"));
    assert!(matches!(grep(args, &lines), Err(ErrorType::NotFound)));
}

#[test]
fn empty_pattern_is_rejected() {
    let lines = create_lines(vec!["xyz"]);
    let args = new_with_default(String::new(), String::from("input.txt"));
    assert!(matches!(grep(args, &lines), Err(ErrorType::EmptyPattern)));
}

#[test]
fn boyer_moore_is_unsupported() {
    let lines = create_lines(vec!["aba"]);
    let mut args = new_with_default(String::from("aba"), String::from("input.txt"));
    args.algo = Algo::BoyerMoore;
    assert!(matches!(grep(args, &lines), Err(ErrorType::UnsupportedStrategy)));
}

#[test]
fn default_args() {
    let args = Args::new_with_default(String::from("x"), String::from("f"));
    assert_eq!(args.mode, Mode::All);
    assert_eq!(args.algo, Algo::Kmp);
    assert!(!args.ignore_case);
    assert!(!args.show_config.number);
    assert_eq!(args.show_config.color, Color::Red);
    assert_eq!(args.show_config.window_size, 10);
}

#[test]
fn construct_line_cuts_context_to_window() {
    let config = ShowConfig { number: false, color: Color::Red, window_size: 2 };
    let out = construct_line(4, 7, (0, String::from("xxxxabayyyy")), &config);
    assert_eq!(out, create_wanted_string(vec![
        "xx".to_string(),
        "aba".red().to_string(),
        "yy".to_string()
    ]));
}

#[test]
fn construct_line_numbers_the_line() {
    let config = ShowConfig { number: true, color: Color::Green, window_size: 10 };
    let out = construct_line(0, 1, (41, String::from("ab")), &config);
    assert_eq!(out, create_wanted_string(vec![
        "42:".to_string(),
        "a".green().to_string(),
        "b".to_string()
    ]));
}

#[test]
fn construct_reverse_line_with_number() {
    let config = ShowConfig { number: true, color: Color::Red, window_size: 10 };
    assert_eq!(construct_reverse_line(String::from("text"), 9, &config), "10:text");
}

#[test]
fn construct_line_all_overlapping_spans() {
    let config = create_show_config();
    let out = construct_line_all("aaab", 0, "aa", vec![(0, 2), (1, 3)], &config);
    assert_eq!(out, create_wanted_string(vec![
        "aa".red().to_string(),
        "aa".red().to_string(),
        "b".to_string()
    ]));
}

#[test]
fn session_reads_lines_one_at_a_time() {
    let mut args = new_with_default(String::from("aba"), String::from("input.txt"));
    args.mode = Mode::Left;
    let mut search = kmp_grep::grep::Grep::start(args).ok().unwrap();
    search.feed("xyz");
    search.feed("abacaba");
    let out = search.finish().ok().unwrap();
    assert_eq!(out, vec![create_wanted_string(vec![
        "aba".red().to_string(),
        "c".to_string(),
        "aba".to_string()
    ])]);
}

#[test]
fn session_without_lines_finds_nothing() {
    let args = new_with_default(String::from("aba"), String::from("input.txt"));
    let search = kmp_grep::grep::Grep::start(args).ok().unwrap();
    assert!(matches!(search.finish(), Err(ErrorType::NotFound)));
}

#[test]
fn layout_line_keeps_window_around_match() {
    let config = ShowConfig { number: false, color: Color::Red, window_size: 2 };
    let out = layout_line(4, 7, (0, String::from("xxxxabayyyy")), &config, "[aba]");
    assert_eq!(out, "xx[aba]yy");
}

#[test]
fn layout_line_window_larger_than_line() {
    let config = ShowConfig { number: true, color: Color::Red, window_size: 100 };
    let out = layout_line(1, 2, (99, String::from("abc")), &config, "<b>");
    assert_eq!(out, "100:a<b>c");
}

#[test]
fn layout_line_all_replaces_every_span() {
    let config = create_show_config();
    let out = layout_line_all("abacaba", 0, "<aba>", &vec![(0, 3), (4, 7)], &config);
    assert_eq!(out, "<aba>c<aba>");
}
