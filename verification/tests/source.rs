use rand_bk::palette::{parse_colors, Palette};
use rand_bk::source::{
    advance, begin, candidate_paths, Loaded, Probe, Source, Step, EMBEDDED_COLORS,
};
use std::path::PathBuf;

fn search(found: Vec<Probe>) -> (Loaded, Vec<usize>) {
    let count = found.len();
    let mut found: Vec<Option<Probe>> = found.into_iter().map(Some).collect();
    let mut looked_at = Vec::new();
    let mut step = begin(count);
    loop {
        match step {
            Step::Probe(at) => {
                looked_at.push(at);
                step = advance(count, at, found[at].take().unwrap());
            }
            Step::Done(loaded) => return (loaded, looked_at),
        }
    }
}

fn embedded() -> Loaded {
    Loaded { source: Source::Embedded, content: EMBEDDED_COLORS.to_string() }
}

#[test]
fn test_embedded_colors_fallback() {
    let (loaded, _) = search(vec![Probe::Missing, Probe::Missing, Probe::Unreadable]);
    let colors = loaded.content;
    assert!(!colors.is_empty());
}

#[test]
fn embedded_text_holds_a_palette() {
    let colors = parse_colors(EMBEDDED_COLORS);
    assert!(!colors.is_empty());
    assert_eq!(colors[0], "#000000");
    assert!(Palette::from_text(EMBEDDED_COLORS).is_ok());
}

#[test]
fn search_without_candidates_takes_the_embedded_text() {
    assert_eq!(begin(0), Step::Done(embedded()));
    assert_eq!(search(vec![]), (embedded(), vec![]));
}

#[test]
fn search_starts_at_the_first_candidate() {
    assert_eq!(begin(1), Step::Probe(0));
    assert_eq!(begin(5), Step::Probe(0));
}

#[test]
fn search_without_readable_candidate_takes_the_embedded_text() {
    let found = vec![Probe::Missing, Probe::Unreadable, Probe::Missing, Probe::Unreadable];
    assert_eq!(search(found), (embedded(), vec![0, 1, 2, 3]));
}

#[test]
fn search_stops_at_the_first_readable_candidate() {
    let found = vec![
        Probe::Missing,
        Probe::Unreadable,
        Probe::Content("#abc\n".to_string()),
        Probe::Content("#def\n".to_string()),
        Probe::Missing,
    ];
    let want = Loaded { source: Source::Candidate(2), content: "#abc\n".to_string() };
    assert_eq!(search(found), (want, vec![0, 1, 2]));
}

#[test]
fn search_takes_readable_text_as_it_is() {
    let (loaded, _) = search(vec![Probe::Content(String::new())]);
    assert_eq!(loaded, Loaded { source: Source::Candidate(0), content: String::new() });
}

#[test]
fn advance_goes_through_the_candidates_in_order() {
    assert_eq!(advance(5, 0, Probe::Missing), Step::Probe(1));
    assert_eq!(advance(5, 3, Probe::Unreadable), Step::Probe(4));
    assert_eq!(advance(5, 4, Probe::Missing), Step::Done(embedded()));
    assert_eq!(advance(5, 9, Probe::Missing), Step::Done(embedded()));
    assert_eq!(advance(0, 0, Probe::Unreadable), Step::Done(embedded()));
    assert_eq!(advance(usize::MAX, usize::MAX, Probe::Missing), Step::Done(embedded()));
    assert_eq!(
        advance(5, 1, Probe::Content("x".to_string())),
        Step::Done(Loaded { source: Source::Candidate(1), content: "x".to_string() })
    );
}

#[test]
fn candidates_with_everything_known() {
    let paths = candidate_paths(Some("/usr/local/bin"), Some("/home/ada"));
    assert_eq!(
        paths,
        vec![
            "/usr/local/bin/colors",
            "colors",
            "/home/ada/.config/rand-bk/colors",
            "/home/ada/.rand-bk-colors",
            "/etc/rand-bk/colors",
        ]
    );
}

#[test]
fn candidates_with_nothing_known() {
    assert_eq!(candidate_paths(None, None), vec!["colors", "/etc/rand-bk/colors"]);
}

#[test]
fn candidates_without_home() {
    assert_eq!(
        candidate_paths(Some("/opt/app"), None),
        vec!["/opt/app/colors", "colors", "/etc/rand-bk/colors"]
    );
}

#[test]
fn candidates_without_executable() {
    assert_eq!(
        candidate_paths(None, Some("/root")),
        vec!["colors", "/root/.config/rand-bk/colors", "/root/.rand-bk-colors", "/etc/rand-bk/colors"]
    );
}

#[test]
fn candidates_add_no_second_separator() {
    assert_eq!(
        candidate_paths(Some("/"), Some("/home/ada/")),
        vec![
            "/colors",
            "colors",
            "/home/ada/.config/rand-bk/colors",
            "/home/ada/.rand-bk-colors",
            "/etc/rand-bk/colors",
        ]
    );
}

#[test]
fn candidates_below_an_empty_directory_are_relative() {
    assert_eq!(
        candidate_paths(Some(""), Some("")),
        vec![
            "colors",
            "colors",
            ".config/rand-bk/colors",
            ".rand-bk-colors",
            "/etc/rand-bk/colors",
        ]
    );
}

#[test]
fn candidates_are_what_path_joining_gives() {
    let dirs = ["", "/", "/home/ada", "/home/ada/", "rel", "rel/", "/a//", "/caf\u{e9}", "."];
    for exe in dirs {
        for home in dirs {
            let want_paths: Vec<PathBuf> = vec![
                PathBuf::from(exe).join("colors"),
                PathBuf::from("colors"),
                PathBuf::from(home).join(".config").join("rand-bk").join("colors"),
                PathBuf::from(home).join(".rand-bk-colors"),
                PathBuf::from("/etc/rand-bk/colors"),
            ];
            let want_text: Vec<String> =
                want_paths.iter().map(|p| p.to_str().unwrap().to_string()).collect();
            let got_text = candidate_paths(Some(exe), Some(home));
            assert_eq!(got_text, want_text, "for {:?} and {:?}", exe, home);
        }
    }
}
