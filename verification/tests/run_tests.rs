use lenz::rf::ReadableFile;
use lenz::{
    check_file, create_rf, create_rfs, garbage_report, plan, show, starts_with_hyphen, Plan,
};
use lenz::errors::ErrorMsg;

fn strings(text: &[&str]) -> Vec<String> {
    text.iter().map(|line| line.to_string()).collect()
}

fn head(path: &str, count: usize) -> String {
    format!("\x1b[1m- Filename: \x1b[3m\x1b[37m'{}'\x1b[0m \x1b[32m[{}]\x1b[0m", path, count)
}

fn search(args: &[&str]) -> (String, Vec<String>, bool, usize) {
    match plan(&strings(args)) {
        Plan::Search { query, files, ignore_case, mode } => (query, files, ignore_case, mode),
        other => panic!("no search: {:?}", other),
    }
}

fn refusal(args: &[&str]) -> String {
    match plan(&strings(args)) {
        Plan::Refuse(error) => error.msg().to_string(),
        other => panic!("no refusal: {:?}", other),
    }
}

#[test]
fn check_file_accepts_a_file() {
    assert_eq!(check_file("a.txt", true, true).unwrap(), "a.txt");
}

#[test]
fn check_file_refuses_a_missing_path() {
    let error = check_file("a.txt", false, false).unwrap_err();
    assert_eq!(error.msg(), "File \x1b[3m\x1b[37m'a.txt'\x1b[0m does not exist.");
    let error = check_file("a.txt", false, true).unwrap_err();
    assert_eq!(error.msg(), "File \x1b[3m\x1b[37m'a.txt'\x1b[0m does not exist.");
}

#[test]
fn check_file_refuses_what_is_not_a_file() {
    let error = check_file("some/dir", true, false).unwrap_err();
    assert_eq!(error.msg(), "Path \x1b[3m\x1b[37m'some/dir'\x1b[0m is not a file.");
}

#[test]
fn create_rf_makes_the_file_to_search() {
    let rf = create_rf("a.txt", "lenz", true, true, true).unwrap();
    assert_eq!(rf.path(), "a.txt");
    assert_eq!(rf.render_count(&strings(&["LENZ"])), vec![head("a.txt", 1)]);
    let rf = create_rf("a.txt", "lenz", false, true, true).unwrap();
    assert_eq!(rf.render_count(&strings(&["LENZ"])), vec![head("a.txt", 0)]);
}

#[test]
fn create_rf_hands_the_error_on() {
    let error = create_rf("a.txt", "lenz", false, false, false).unwrap_err();
    assert_eq!(error.msg(), "File \x1b[3m\x1b[37m'a.txt'\x1b[0m does not exist.");
    let error = create_rf("dir", "lenz", false, true, false).unwrap_err();
    assert_eq!(error.msg(), "Path \x1b[3m\x1b[37m'dir'\x1b[0m is not a file.");
}

#[test]
fn create_rfs_sorts_files_from_errors() {
    let paths = vec![
        ("a.txt".to_string(), true, true),
        ("missing".to_string(), false, false),
        ("dir".to_string(), true, false),
        ("b.txt".to_string(), true, true),
    ];
    let (sources, errors) = create_rfs(&paths, "lenz", false);
    assert_eq!(sources.len(), 2);
    assert_eq!(sources[0].path(), "a.txt");
    assert_eq!(sources[1].path(), "b.txt");
    assert_eq!(errors.len(), 2);
    assert_eq!(errors[0].msg(), "File \x1b[3m\x1b[37m'missing'\x1b[0m does not exist.");
    assert_eq!(errors[1].msg(), "Path \x1b[3m\x1b[37m'dir'\x1b[0m is not a file.");
}

#[test]
fn create_rfs_hands_query_and_case_mode_on() {
    let paths = vec![("a.txt".to_string(), true, true)];
    let (sources, _) = create_rfs(&paths, "lenz", true);
    assert_eq!(sources[0].render_count(&strings(&["LENZ lenz"])), vec![head("a.txt", 2)]);
    let (sources, _) = create_rfs(&paths, "lenz", false);
    assert_eq!(sources[0].render_count(&strings(&["LENZ lenz"])), vec![head("a.txt", 1)]);
}

#[test]
fn create_rfs_of_no_path() {
    let (sources, errors) = create_rfs(&Vec::new(), "lenz", false);
    assert!(sources.is_empty());
    assert!(errors.is_empty());
}

#[test]
fn garbage_report_of_one_error() {
    let errors = vec![ErrorMsg::new("first".to_string())];
    assert_eq!(
        garbage_report(&errors),
        vec![
            "\n\x1b[1m\x1b[31m* Errors Report: \x1b[0m".to_string(),
            "\x1b[31m└──[1]\x1b[0m first".to_string(),
        ],
    );
}

#[test]
fn garbage_report_of_three_errors() {
    let errors = vec![
        ErrorMsg::new("first".to_string()),
        ErrorMsg::new("second".to_string()),
        ErrorMsg::new("third".to_string()),
    ];
    assert_eq!(
        garbage_report(&errors),
        vec![
            "\n\x1b[1m\x1b[31m* Errors Report: \x1b[0m".to_string(),
            "\x1b[31m├──[1]\x1b[0m first".to_string(),
            "\x1b[31m├──[2]\x1b[0m second".to_string(),
            "\x1b[31m└──[3]\x1b[0m third".to_string(),
        ],
    );
}

#[test]
fn garbage_report_of_no_error_is_its_heading() {
    assert_eq!(
        garbage_report(&Vec::new()),
        vec!["\n\x1b[1m\x1b[31m* Errors Report: \x1b[0m".to_string()],
    );
}

#[test]
fn garbage_report_counts_past_nine() {
    let errors: Vec<ErrorMsg> = (0..12).map(|i| ErrorMsg::new(format!("e{}", i))).collect();
    let lines = garbage_report(&errors);
    assert_eq!(lines.len(), 13);
    assert_eq!(lines[10], "\x1b[31m├──[10]\x1b[0m e9");
    assert_eq!(lines[12], "\x1b[31m└──[12]\x1b[0m e11");
}

#[test]
fn an_argument_with_a_hyphen_is_an_option() {
    assert!(starts_with_hyphen("-c"));
    assert!(starts_with_hyphen("--count"));
    assert!(starts_with_hyphen("-"));
    assert!(!starts_with_hyphen(""));
    assert!(!starts_with_hyphen("c-"));
    assert!(!starts_with_hyphen("file.txt"));
    assert!(!starts_with_hyphen("–c"));
}

#[test]
fn plan_of_the_help_option() {
    assert!(matches!(plan(&strings(&["-h"])), Plan::Help));
    assert!(matches!(plan(&strings(&["--help"])), Plan::Help));
}

#[test]
fn plan_of_the_version_option() {
    assert!(matches!(plan(&strings(&["-v"])), Plan::Version));
    assert!(matches!(plan(&strings(&["--version"])), Plan::Version));
}

#[test]
fn plan_refuses_another_lone_option() {
    let expected =
        "Only two options '-h, --help' and '-v, --version' are accepted without any arguments.";
    assert_eq!(refusal(&["-c"]), expected);
    assert_eq!(refusal(&["--nothing"]), expected);
    assert_eq!(refusal(&["-"]), expected);
}

#[test]
fn plan_refuses_fewer_than_two_arguments() {
    assert_eq!(refusal(&[]), "At least two arguments are expected.");
    assert_eq!(refusal(&["query"]), "At least two arguments are expected.");
    assert_eq!(refusal(&[""]), "At least two arguments are expected.");
}

#[test]
fn plan_refuses_an_unknown_option() {
    assert_eq!(
        refusal(&["query", "a.txt", "-x"]),
        "This option is not valid: \x1b[3m\x1b[37m'-x'\x1b[0m.",
    );
    assert_eq!(
        refusal(&["query", "--help"]),
        "This option is not valid: \x1b[3m\x1b[37m'--help'\x1b[0m.",
    );
}

#[test]
fn plan_of_a_search_without_an_option() {
    assert_eq!(
        search(&["query", "a.txt", "b.txt"]),
        ("query".to_string(), strings(&["a.txt", "b.txt"]), false, 1),
    );
    assert_eq!(search(&["query", "a.txt"]), ("query".to_string(), strings(&["a.txt"]), false, 1));
    assert_eq!(search(&["-q", "a.txt"]), ("-q".to_string(), strings(&["a.txt"]), false, 1));
}

#[test]
fn plan_of_a_search_with_an_option() {
    assert_eq!(
        search(&["query", "a.txt", "b.txt", "-c"]),
        ("query".to_string(), strings(&["a.txt", "b.txt"]), false, 0),
    );
    assert_eq!(
        search(&["query", "a.txt", "--count"]),
        ("query".to_string(), strings(&["a.txt"]), false, 0),
    );
    assert_eq!(
        search(&["query", "a.txt", "-p"]),
        ("query".to_string(), strings(&["a.txt"]), false, 2),
    );
    assert_eq!(
        search(&["query", "a.txt", "--page-view"]),
        ("query".to_string(), strings(&["a.txt"]), false, 2),
    );
    assert_eq!(
        search(&["query", "a.txt", "-i"]),
        ("query".to_string(), strings(&["a.txt"]), true, 1),
    );
    assert_eq!(
        search(&["query", "a.txt", "--ignore-case"]),
        ("query".to_string(), strings(&["a.txt"]), true, 1),
    );
}

#[test]
fn plan_of_a_search_without_a_path() {
    assert_eq!(search(&["query", "-c"]), ("query".to_string(), Vec::new(), false, 0));
    assert_eq!(search(&["query", "-i"]), ("query".to_string(), Vec::new(), true, 1));
}

#[test]
fn plan_takes_an_option_only_at_the_end() {
    assert_eq!(
        search(&["query", "-c", "a.txt"]),
        ("query".to_string(), strings(&["-c", "a.txt"]), false, 1),
    );
}

fn sources(
    query: &str,
    ignore_case: bool,
    files: &[(&str, &[&str])],
) -> Vec<(ReadableFile, Vec<String>)> {
    files
        .iter()
        .map(|(path, lines)| {
            (ReadableFile::new(path.to_string(), query.to_string(), ignore_case), strings(lines))
        })
        .collect()
}

#[test]
fn show_puts_the_files_one_behind_the_other() {
    let files: [(&str, &[&str]); 2] = [("a", &["x", "a lenz"]), ("b", &["lenz lenz", "y"])];
    let both = sources("lenz", false, &files);
    assert_eq!(show(&both, 0), vec![head("a", 1), head("b", 2)]);
    assert_eq!(
        show(&both, 1),
        vec![
            format!("\n{}\n", head("a", 1)),
            " \x1b[32m2\x1b[0m       a \x1b[41mlenz\x1b[0m".to_string(),
            format!("\n{}\n", head("b", 2)),
            " \x1b[32m1\x1b[0m       \x1b[41mlenz\x1b[0m \x1b[41mlenz\x1b[0m".to_string(),
        ],
    );
    assert_eq!(
        show(&both, 2),
        vec![
            format!("\n{}\n", head("a", 1)),
            " \x1b[32m1\x1b[0m       x".to_string(),
            " \x1b[31m2\x1b[0m       a \x1b[41mlenz\x1b[0m".to_string(),
            format!("\n{}\n", head("b", 2)),
            " \x1b[31m1\x1b[0m       \x1b[41mlenz\x1b[0m \x1b[41mlenz\x1b[0m".to_string(),
            " \x1b[32m2\x1b[0m       y".to_string(),
        ],
    );
}

#[test]
fn show_of_one_file_is_what_the_file_shows() {
    let files: [(&str, &[&str]); 1] = [("a", &["x", "a lenz", "LENZ"])];
    let one = sources("lenz", true, &files);
    assert_eq!(show(&one, 0), one[0].0.render_count(&one[0].1));
    assert_eq!(show(&one, 1), one[0].0.render_cells(&one[0].1));
    assert_eq!(show(&one, 2), one[0].0.render_page(&one[0].1));
}

#[test]
fn show_of_no_file_is_empty() {
    assert!(show(&Vec::new(), 0).is_empty());
    assert!(show(&Vec::new(), 1).is_empty());
    assert!(show(&Vec::new(), 2).is_empty());
}

#[test]
fn show_twice_gives_the_same_output() {
    let files: [(&str, &[&str]); 1] = [("a", &["x", "a LENZ", "lenz"])];
    let one = sources("lenz", true, &files);
    for mode in 0..3 {
        assert_eq!(show(&one, mode), show(&one, mode));
    }
}
