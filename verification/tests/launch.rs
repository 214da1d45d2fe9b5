use rand_bk::launch::{
    background_option_for, plan_run, Launch, OPTION_PREFIX, OPTION_SUFFIX, TERMINAL,
};
use rand_bk::palette::PaletteError;
use rand_bk::select::{Origin, SelectionRequest};

fn request(index: Option<&str>, color: Option<&str>) -> SelectionRequest {
    SelectionRequest { index: index.map(|s| s.to_string()), color: color.map(|s| s.to_string()) }
}

#[test]
fn option_has_the_exact_form() {
    assert_eq!(background_option_for("#123456"), "--option=colors.primary.background='#123456'");
    assert_eq!(background_option_for(""), "--option=colors.primary.background=''");
}

#[test]
fn option_takes_the_color_verbatim() {
    assert_eq!(
        background_option_for("it's \"red\" \\ #f00"),
        "--option=colors.primary.background='it's \"red\" \\ #f00'"
    );
    let color = "#caf\u{e9} '";
    let option = background_option_for(color);
    assert_eq!(option, format!("{}{}{}", OPTION_PREFIX, color, OPTION_SUFFIX));
}

#[test]
fn launch_starts_the_terminal_with_one_option() {
    let launch = Launch::with_background("#002b36");
    assert_eq!(TERMINAL, "alacritty");
    assert_eq!(
        launch,
        Launch {
            program: "alacritty".to_string(),
            option: "--option=colors.primary.background='#002b36'".to_string(),
        }
    );
}

#[test]
fn run_without_palette_ends_before_any_launch() {
    for content in ["", "\n\n", "red\ngreen\nblue\n", "  \t\n not # marked"] {
        for req in [request(None, None), request(Some("0"), None), request(None, Some("#123456"))] {
            assert_eq!(plan_run(content, &req), Err(PaletteError::EmptyPalette));
        }
    }
}

#[test]
fn run_with_explicit_color() {
    let run = plan_run("#a\n#b\n", &request(Some("1"), Some("#123456"))).unwrap();
    assert_eq!(run.colors, 2);
    assert_eq!(run.resolution.color, "#123456");
    assert_eq!(run.resolution.origin, Origin::Explicit);
    assert_eq!(run.launch, Launch::with_background("#123456"));
}

#[test]
fn run_with_index() {
    let run = plan_run("#a\nnot this\n #b \n#c", &request(Some("1"), None)).unwrap();
    assert_eq!(run.colors, 3);
    assert_eq!(run.resolution.color, "#b");
    assert_eq!(run.resolution.origin, Origin::Indexed(1));
    assert_eq!(run.launch.program, "alacritty");
    assert_eq!(run.launch.option, "--option=colors.primary.background='#b'");
}

#[test]
fn run_left_to_chance_launches_with_an_entry() {
    let entries = ["#a", "#b", "#c"];
    for _ in 0..50 {
        let run = plan_run("#a\n#b\n#c\n", &request(Some("3"), None)).unwrap();
        match run.resolution.origin {
            Origin::Fallback { requested: 3, drawn } => {
                assert_eq!(run.resolution.color, entries[drawn]);
            }
            other => panic!("unexpected origin {:?}", other),
        }
        assert_eq!(run.launch, Launch::with_background(&run.resolution.color));
    }
}
