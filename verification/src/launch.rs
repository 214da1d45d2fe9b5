//! The launch: the command that starts the terminal emulator with the chosen
//! background, and the plan of a whole run.

use crate::palette::{is_color_entry, parsed_palette, Palette, PaletteError};
use crate::select::{origin_of, resolved_color, select, Origin, Resolution, SelectionRequest};
use vstd::prelude::*;
use vstd::string::*;

verus! {

/// The terminal emulator that is started.
pub const TERMINAL: &'static str = "alacritty";

/// What stands before the colour in the option that sets the background.
pub const OPTION_PREFIX: &'static str = "--option=colors.primary.background='";

/// What stands after the colour in the option that sets the background.
pub const OPTION_SUFFIX: &'static str = "'";

/// The option that sets the background to `color`: the colour as it is,
/// between the prefix and the closing quote. Nothing in it is escaped.
pub open spec fn background_option(color: Seq<char>) -> Seq<char> {
    OPTION_PREFIX@ + color + OPTION_SUFFIX@
}

/// The colour stands in its option unchanged, right after the prefix, and
/// can be read back from there; so different colours give different options.
pub proof fn lemma_option_holds_color(color: Seq<char>)
    ensures
        background_option(color).len() == OPTION_PREFIX@.len() + color.len() + OPTION_SUFFIX@.len(),
        background_option(color).subrange(
            OPTION_PREFIX@.len() as int,
            (OPTION_PREFIX@.len() + color.len()) as int,
        ) == color,
        background_option(color).take(OPTION_PREFIX@.len() as int) == OPTION_PREFIX@,
        background_option(color).skip((OPTION_PREFIX@.len() + color.len()) as int)
            == OPTION_SUFFIX@,
{
}

/// Builds the option that sets the background to `color`.
pub fn background_option_for(color: &str) -> (option: String)
    ensures
        option@ == background_option(color@),
{
    let mut option = OPTION_PREFIX.to_owned();
    option.append(color);
    option.append(OPTION_SUFFIX);
    option
}

/// The command that starts the terminal emulator: the program, and the one
/// argument it is given.
#[derive(Debug, PartialEq, Eq)]
pub struct Launch {
    pub program: String,
    pub option: String,
}

impl Launch {
    /// Whether this is the command that starts the terminal emulator with
    /// the background `color`.
    pub open spec fn sets_background(&self, color: Seq<char>) -> bool {
        self.program@ == TERMINAL@ && self.option@ == background_option(color)
    }

    /// The command that starts the terminal emulator with the background
    /// `color`.
    pub fn with_background(color: &str) -> (launch: Launch)
        ensures
            launch.sets_background(color@),
    {
        Launch { program: TERMINAL.to_owned(), option: background_option_for(color) }
    }
}

/// What a run does once the palette text is at hand: how many colours there
/// were to choose from, which one was chosen and how, and the one command to
/// start.
#[derive(Debug, PartialEq, Eq)]
pub struct Run {
    pub colors: usize,
    pub resolution: Resolution,
    pub launch: Launch,
}

/// Plans a run from palette text and a request. A text without a colour
/// entry ends the run before anything is chosen or started; any other text
/// gives a plan with exactly one command, which sets the background to the
/// colour that the request resolves to.
pub fn plan_run(content: &str, request: &SelectionRequest) -> (r: Result<Run, PaletteError>)
    ensures
        match r {
            Ok(run) => {
                &&& parsed_palette(content@).len() > 0
                &&& run.colors == parsed_palette(content@).len()
                &&& exists|draw: usize|
                    draw < run.colors && run.resolution.origin == #[trigger] origin_of(
                        parsed_palette(content@),
                        request.index.deep_view(),
                        request.color.deep_view(),
                        draw,
                    ) && run.resolution.color@ == resolved_color(
                        parsed_palette(content@),
                        request.index.deep_view(),
                        request.color.deep_view(),
                        draw,
                    )
                &&& run.resolution.color@.len() > 0
                &&& run.resolution.origin != Origin::Explicit ==> is_color_entry(
                    run.resolution.color@,
                ) && parsed_palette(content@).contains(run.resolution.color@)
                &&& run.launch.sets_background(run.resolution.color@)
            },
            Err(e) => e == PaletteError::EmptyPalette && parsed_palette(content@).len() == 0,
        },
{
    let palette = match Palette::from_text(content) {
        Ok(palette) => palette,
        Err(e) => { return Err(e); },
    };
    let resolution = select(&palette, request);
    let launch = Launch::with_background(resolution.color.as_str());
    Ok(Run { colors: palette.len(), resolution, launch })
}

} // verus!
