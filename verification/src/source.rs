//! Where palette text comes from: the files that are tried, in order, and the
//! palette that is built in for when none of them can be read.

use crate::palette::{is_color_entry, lemma_palette_join, lemma_palette_of_line, parsed_palette};
use crate::text::lemma_trimmed_fixed;
use vstd::prelude::*;
use vstd::string::*;

verus! {

/// The palette that is built in.
pub const EMBEDDED_COLORS: &'static str =
    "#000000\n#1d1f21\n#282a36\n#002b36\n#2e3440\n#1e1e2e\n#282c34\n#263238\n";

/// The built-in text holds at least one colour entry, so a run that falls
/// back on it always has a palette.
pub proof fn lemma_embedded_palette_nonempty()
    ensures
        parsed_palette(EMBEDDED_COLORS@).len() > 0,
        parsed_palette(EMBEDDED_COLORS@)[0] == "#000000"@,
{
    reveal_strlit("#000000\n#1d1f21\n#282a36\n#002b36\n#2e3440\n#1e1e2e\n#282c34\n#263238\n");
    reveal_strlit("#000000");
    let text = EMBEDDED_COLORS@;
    let head = text.subrange(0, 7);
    let rest = text.subrange(8, text.len() as int);
    assert(head == "#000000"@);
    assert(text == head + seq!['\n'] + rest);
    lemma_palette_join(head, rest);
    lemma_trimmed_fixed(head);
    lemma_palette_of_line(head);
}

/// The name of a palette file.
pub const FILE_NAME: &'static str = "colors";

/// The directory, below the home directory, that holds per-user settings.
pub const CONFIG_DIR: &'static str = ".config";

/// The name under which this program keeps its settings.
pub const APP_NAME: &'static str = "rand-bk";

/// The name of the palette file that lies directly in the home directory.
pub const HOME_FILE_NAME: &'static str = ".rand-bk-colors";

/// The palette file for all users of the machine.
pub const SYSTEM_FILE: &'static str = "/etc/rand-bk/colors";

/// The path of `name` inside the directory `base`, `name` being relative: the
/// two with one `/` between them, unless `base` is empty or ends with `/`
/// already.
pub open spec fn joined(base: Seq<char>, name: Seq<char>) -> Seq<char> {
    if base.len() == 0 || base.last() == '/' {
        base + name
    } else {
        base + seq!['/'] + name
    }
}

/// The candidate beside the executable, where its directory is known.
pub open spec fn beside_executable(exe_dir: Option<Seq<char>>) -> Seq<Seq<char>> {
    match exe_dir {
        Some(dir) => seq![joined(dir, FILE_NAME@)],
        None => Seq::empty(),
    }
}

/// The two candidates below the home directory, where that is known: the
/// file in the settings directory, then the one directly in the home
/// directory.
pub open spec fn under_home(home: Option<Seq<char>>) -> Seq<Seq<char>> {
    match home {
        Some(dir) => seq![
            joined(joined(joined(dir, CONFIG_DIR@), APP_NAME@), FILE_NAME@),
            joined(dir, HOME_FILE_NAME@),
        ],
        None => Seq::empty(),
    }
}

/// The files in which a palette is looked for, first choice first: beside the
/// executable, in the working directory, below the home directory, and last
/// the file for the whole machine.
pub open spec fn candidates(exe_dir: Option<Seq<char>>, home: Option<Seq<char>>) -> Seq<
    Seq<char>,
> {
    beside_executable(exe_dir) + seq![FILE_NAME@] + under_home(home) + seq![SYSTEM_FILE@]
}

/// Computes [`joined`].
fn join(base: &str, name: &str) -> (path: String)
    ensures
        path@ == joined(base@, name@),
{
    let mut path = base.to_owned();
    let n: usize = base.unicode_len();
    if n > 0 && base.get_char(n - 1) != '/' {
        proof {
            reveal_strlit("/");
            assert("/"@ == seq!['/']);
        }
        path.append("/");
    }
    path.append(name);
    path
}

/// Lists the files in which a palette is looked for, first choice first.
/// `exe_dir` is the directory of the running executable and `home` the home
/// directory, each where it is known. The working directory and the file for
/// the whole machine are always among them, so the list is never empty.
pub fn candidate_paths(exe_dir: Option<&str>, home: Option<&str>) -> (paths: Vec<String>)
    ensures
        paths.deep_view() == candidates(exe_dir.deep_view(), home.deep_view()),
        2 <= paths.len() <= 5,
{
    let mut paths: Vec<String> = Vec::new();
    if let Some(dir) = exe_dir {
        paths.push(join(dir, FILE_NAME));
    }
    assert(paths.deep_view() == beside_executable(exe_dir.deep_view()));
    paths.push(FILE_NAME.to_owned());
    assert(paths.deep_view() == beside_executable(exe_dir.deep_view()) + seq![FILE_NAME@]);
    let ghost fixed = paths.deep_view();
    if let Some(dir) = home {
        let settings = join(dir, CONFIG_DIR);
        let ours = join(settings.as_str(), APP_NAME);
        paths.push(join(ours.as_str(), FILE_NAME));
        paths.push(join(dir, HOME_FILE_NAME));
    }
    assert(paths.deep_view() == fixed + under_home(home.deep_view()));
    paths.push(SYSTEM_FILE.to_owned());
    assert(paths.deep_view() == fixed + under_home(home.deep_view()) + seq![SYSTEM_FILE@]);
    paths
}

/// What was found at a candidate.
#[derive(Debug, PartialEq, Eq)]
pub enum Probe {
    /// No file is there.
    Missing,
    /// A file is there, but it could not be read.
    Unreadable,
    /// The file was read, and this is what it holds.
    Content(String),
}

impl Probe {
    /// What the file holds, where it was read.
    pub open spec fn content(self) -> Option<Seq<char>> {
        match self {
            Probe::Content(text) => Some(text@),
            _ => None,
        }
    }
}

/// Where palette text was taken from.
#[derive(Debug, Clone, Copy, PartialEq, Eq, Structural)]
pub enum Source {
    /// The candidate at this position of the list.
    Candidate(usize),
    /// The palette that is built in.
    Embedded,
}

/// Palette text, and where it was taken from.
#[derive(Debug, PartialEq, Eq)]
pub struct Loaded {
    pub source: Source,
    pub content: String,
}

/// The model of [`Loaded`].
pub struct LoadedView {
    pub source: Source,
    pub content: Seq<char>,
}

impl View for Loaded {
    type V = LoadedView;

    open spec fn view(&self) -> LoadedView {
        LoadedView { source: self.source, content: self.content@ }
    }
}

/// What the search for palette text does next.
#[derive(Debug, PartialEq, Eq)]
pub enum Step {
    /// Look at the candidate at this position, and say what was found.
    Probe(usize),
    /// The search is over.
    Done(Loaded),
}

/// The model of [`Step`].
pub enum StepView {
    Probe(usize),
    Done(LoadedView),
}

impl View for Step {
    type V = StepView;

    open spec fn view(&self) -> StepView {
        match self {
            Step::Probe(at) => StepView::Probe(*at),
            Step::Done(loaded) => StepView::Done(loaded@),
        }
    }
}

/// The built-in palette as the result of a search.
pub open spec fn fallback() -> LoadedView {
    LoadedView { source: Source::Embedded, content: EMBEDDED_COLORS@ }
}

/// The first step of a search among `count` candidates.
pub open spec fn first_step(count: usize) -> StepView {
    if count > 0 {
        StepView::Probe(0)
    } else {
        StepView::Done(fallback())
    }
}

/// The step that follows when the candidate at position `at`, among `count`,
/// gave `found`: text ends the search; without it the next candidate is
/// looked at, and after the last one the built-in palette is taken.
pub open spec fn next_step(count: usize, at: usize, found: Option<Seq<char>>) -> StepView {
    match found {
        Some(text) => StepView::Done(LoadedView { source: Source::Candidate(at), content: text }),
        None => if at < count && at + 1 < count {
            StepView::Probe((at + 1) as usize)
        } else {
            StepView::Done(fallback())
        },
    }
}

/// Where a search ends that stands at `step`, when `found[i]` is what the
/// candidate at position `i` gives.
pub open spec fn outcome(found: Seq<Option<Seq<char>>>, step: StepView) -> LoadedView
    decreases
        (match step {
            StepView::Probe(at) => found.len() - at,
            StepView::Done(_) => 0,
        }),
{
    match step {
        StepView::Done(loaded) => loaded,
        StepView::Probe(at) => if at < found.len() <= usize::MAX {
            outcome(found, next_step(found.len() as usize, at, found[at as int]))
        } else {
            fallback()
        },
    }
}

/// Starts a search among `count` candidates.
pub fn begin(count: usize) -> (step: Step)
    ensures
        step@ == first_step(count),
{
    if count > 0 {
        Step::Probe(0)
    } else {
        Step::Done(Loaded { source: Source::Embedded, content: EMBEDDED_COLORS.to_owned() })
    }
}

/// Goes on with a search among `count` candidates after the one at position
/// `at` gave `found`. The search never fails: where no candidate gives text,
/// it ends with the built-in palette.
pub fn advance(count: usize, at: usize, found: Probe) -> (step: Step)
    ensures
        step@ == next_step(count, at, found.content()),
{
    match found {
        Probe::Content(content) => Step::Done(Loaded { source: Source::Candidate(at), content }),
        _ => if at < count && at + 1 < count {
            Step::Probe(at + 1)
        } else {
            Step::Done(Loaded { source: Source::Embedded, content: EMBEDDED_COLORS.to_owned() })
        },
    }
}

/// A search that has reached a candidate before which none gave text, and
/// which gives text itself, ends with that text.
proof fn lemma_outcome_from(found: Seq<Option<Seq<char>>>, at: int, first: int)
    requires
        0 <= at <= first < found.len() <= usize::MAX,
        found[first] is Some,
        forall|j: int| at <= j < first ==> found[j] is None,
    ensures
        outcome(found, StepView::Probe(at as usize)) == (LoadedView {
            source: Source::Candidate(first as usize),
            content: found[first]->0,
        }),
    decreases first - at,
{
    reveal_with_fuel(outcome, 2);
    if at < first {
        lemma_outcome_from(found, at + 1, first);
    }
}

/// A search among candidates of which none, from `at` on, gives text ends
/// with the built-in palette.
proof fn lemma_outcome_without_text(found: Seq<Option<Seq<char>>>, at: int)
    requires
        0 <= at <= found.len() <= usize::MAX,
        forall|j: int| at <= j < found.len() ==> found[j] is None,
    ensures
        at < found.len() ==> outcome(found, StepView::Probe(at as usize)) == fallback(),
    decreases found.len() - at,
{
    reveal_with_fuel(outcome, 2);
    if at < found.len() {
        lemma_outcome_without_text(found, at + 1);
    }
}

/// The first candidate that can be read wins: a search ends with the text of
/// the candidate at position `first` when that one gives text and none before
/// it does.
pub proof fn lemma_first_readable_wins(found: Seq<Option<Seq<char>>>, first: int)
    requires
        0 <= first < found.len() <= usize::MAX,
        found[first] is Some,
        forall|j: int| 0 <= j < first ==> found[j] is None,
    ensures
        outcome(found, first_step(found.len() as usize)) == (LoadedView {
            source: Source::Candidate(first as usize),
            content: found[first]->0,
        }),
{
    lemma_outcome_from(found, 0, first);
}

/// A search always ends with some text: where no candidate gives any, be it
/// that there is none at all, it ends with the built-in palette.
pub proof fn lemma_search_falls_back(found: Seq<Option<Seq<char>>>)
    requires
        found.len() <= usize::MAX,
        forall|j: int| 0 <= j < found.len() ==> found[j] is None,
    ensures
        outcome(found, first_step(found.len() as usize)) == fallback(),
{
    lemma_outcome_without_text(found, 0);
}

} // verus!
