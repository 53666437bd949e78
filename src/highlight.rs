//! The highlighter's settings, and one source line turned into coloured runs.
use crate::code_to_pdf::{Rgb, StyledRun};
use syntect::easy::HighlightLines;
use syntect::highlighting::Theme;
use syntect::parsing::SyntaxSet;
use vstd::prelude::*;

verus! {

#[verifier::external_type_specification]
#[verifier::external_body]
pub struct ExSyntaxSet(syntect::parsing::SyntaxSet);

#[verifier::external_type_specification]
#[verifier::external_body]
pub struct ExTheme(syntect::highlighting::Theme);

#[verifier::external_type_specification]
#[verifier::external_body]
pub struct ExHighlightLines<'a>(syntect::easy::HighlightLines<'a>);

#[verifier::external_type_specification]
#[verifier::external_body]
pub struct ExSyntectError(syntect::Error);

/// Lines of this many bytes or more are not highlighted.
pub const MAX_LINE_LEN_TO_HIGHLIGHT: usize = 20_000;

/// The texts of `runs`, joined.
pub open spec fn run_texts(runs: Seq<StyledRun>) -> Seq<char>
    decreases runs.len(),
{
    if runs.len() == 0 {
        seq![]
    } else {
        run_texts(runs.drop_last()) + runs.last().text@
    }
}

/// Relies on `HighlightLines::highlight_line`: on success, the texts of the
/// tokens it returns, joined, are the line (as syntect documents for the
/// token iterator it collects). Each token keeps its foreground colour.
#[verifier::external_body]
fn highlight_runs(h: &mut HighlightLines, line: &str, syntax_set: &SyntaxSet) -> (r: Result<
    Vec<StyledRun>,
    syntect::Error,
>)
    ensures
        r matches Ok(runs) ==> run_texts(runs@) == line@,
{
    h.highlight_line(line, syntax_set).map(
        |v|
            v.into_iter().map(
                |(s, t)|
                    StyledRun {
                        color: Rgb { r: s.foreground.r, g: s.foreground.g, b: s.foreground.b },
                        text: t.to_string(),
                    },
            ).collect(),
    )
}

/// The syntax definitions and theme used to highlight, and the longest line
/// (in bytes) that is highlighted.
pub struct HighlighterConfig {
    pub syntax_set: SyntaxSet,
    pub theme: Theme,
    max_line_len_to_highlight: usize,
}

impl HighlighterConfig {
    /// The syntax definitions.
    pub closed spec fn syntaxes(&self) -> SyntaxSet {
        self.syntax_set
    }

    /// The theme.
    pub closed spec fn colours(&self) -> Theme {
        self.theme
    }

    /// Lines of at least this many bytes are not highlighted.
    pub closed spec fn max_line_len(&self) -> int {
        self.max_line_len_to_highlight as int
    }

    /// Settings with `syntax_set` and `theme`, highlighting lines shorter
    /// than [`MAX_LINE_LEN_TO_HIGHLIGHT`] bytes.
    pub fn new(syntax_set: SyntaxSet, theme: Theme) -> (r: Self)
        ensures
            r.syntaxes() == syntax_set,
            r.colours() == theme,
            r.max_line_len() == MAX_LINE_LEN_TO_HIGHLIGHT,
    {
        HighlighterConfig { syntax_set, theme, max_line_len_to_highlight: MAX_LINE_LEN_TO_HIGHLIGHT }
    }

    /// Whether a line of `line` is highlighted: only shorter lines are.
    pub fn highlights(&self, line: &str) -> (r: bool)
        ensures
            r == (line.len() < self.max_line_len()),
    {
        line.len() < self.max_line_len_to_highlight
    }
}

/// Black.
pub open spec fn black() -> Rgb {
    Rgb { r: 0, g: 0, b: 0 }
}

/// `line` as one black run.
pub fn plain_run(line: &str) -> (r: StyledRun)
    ensures
        r.color == black(),
        r.text@ == line@,
{
    StyledRun { color: Rgb { r: 0, g: 0, b: 0 }, text: line.to_owned() }
}

/// The highlighter failed on a line.
pub struct HighlightError {
    pub source: syntect::Error,
}

/// The coloured runs of one source line. A line too long to highlight is
/// one black run; any other line is handed to `highlighter`, whose runs
/// together hold the line's text.
pub fn highlight_source_line(
    highlighter: &mut HighlightLines,
    config: &HighlighterConfig,
    line: &str,
) -> (r: Result<Vec<StyledRun>, HighlightError>)
    ensures
        line.len() >= config.max_line_len() ==> (r matches Ok(runs) && runs@.len()
            == 1 && runs@[0].color == black() && runs@[0].text@ == line@),
        r matches Ok(runs) ==> run_texts(runs@) == line@,
{
    if config.highlights(line) {
        match highlight_runs(highlighter, line, &config.syntax_set) {
            Ok(runs) => Ok(runs),
            Err(e) => Err(HighlightError { source: e }),
        }
    } else {
        let run = plain_run(line);
        let runs = vec![run];
        proof {
            assert(runs@.drop_last() =~= Seq::<StyledRun>::empty());
            assert(run_texts(Seq::<StyledRun>::empty()) == Seq::<char>::empty());
            assert(run_texts(runs@) =~= Seq::<char>::empty() + runs@[0].text@);
        }
        Ok(runs)
    }
}

} // verus!
