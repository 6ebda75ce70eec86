//! What is shown of search results, and how.

use vstd::prelude::*;

use crate::matcher::{found_lines, numbers, CodeUnit, PatternMatcher};

verus! {

/// How many lines of a document are shown at most where its content is asked
/// for.
pub const DOCUMENT_LINES: usize = 250;

/// The form in which results are shown.
#[derive(Clone, Copy, Debug, PartialEq, Eq, Structural)]
pub enum OutputMode {
    /// The names of the files only.
    Files,
    /// As JSON.
    Json,
    /// That there are none.
    NoResults,
    /// One line for each result.
    Compact,
    /// With the content of each result.
    Verbose,
}

/// Whether the content of results is shown: where it is asked for, where lines
/// of context are asked for, and where the configuration says so.
pub fn shows_content(
    show_content: bool,
    cli_context_lines: Option<usize>,
    configured_verbose: bool,
) -> (r: bool)
    ensures
        r == (show_content || (cli_context_lines matches Some(n) && n > 0) || configured_verbose),
{
    if show_content {
        return true;
    }
    if let Some(n) = cli_context_lines {
        if n > 0 {
            return true;
        }
    }
    configured_verbose
}

/// The form in which results are shown. Names of files are never accompanied by
/// anything else, and JSON is written even where nothing was found.
pub fn output_mode(files_only: bool, json: bool, no_results: bool, verbose: bool) -> (r: OutputMode)
    ensures
        r == if files_only {
            OutputMode::Files
        } else if json {
            OutputMode::Json
        } else if no_results {
            OutputMode::NoResults
        } else if verbose {
            OutputMode::Verbose
        } else {
            OutputMode::Compact
        },
{
    if files_only {
        OutputMode::Files
    } else if json {
        OutputMode::Json
    } else if no_results {
        OutputMode::NoResults
    } else if verbose {
        OutputMode::Verbose
    } else {
        OutputMode::Compact
    }
}

/// Whether notes may be printed beside the results: not where another program
/// may read them.
pub fn prints_notes(json: bool, files_only: bool) -> (r: bool)
    ensures
        r == (!json && !files_only),
{
    !json && !files_only
}

/// Where and how much of a unit is shown.
pub struct DisplayFrame {
    /// The last line of the unit that the file has.
    pub end: usize,
    /// How many lines are shown on either side of a match.
    pub half_context: usize,
    /// How many lines are shown at most.
    pub max_lines: usize,
}

/// The frame for a unit in a file of some number of lines. Where the content is
/// asked for, code is shown whole and documents up to a limit.
pub fn display_frame(
    unit: &CodeUnit,
    file_lines: usize,
    context_lines: usize,
    show_content: bool,
) -> (r: DisplayFrame)
    ensures
        r.end == if unit.end_line < file_lines {
            unit.end_line
        } else {
            file_lines
        },
        r.half_context == context_lines / 2,
        r.max_lines == if !show_content {
            context_lines
        } else if unit.text_format {
            DOCUMENT_LINES
        } else {
            usize::MAX
        },
{
    DisplayFrame {
        end: if unit.end_line < file_lines {
            unit.end_line
        } else {
            file_lines
        },
        half_context: context_lines / 2,
        max_lines: if !show_content {
            context_lines
        } else if unit.text_format {
            DOCUMENT_LINES
        } else {
            usize::MAX
        },
    }
}

/// What is shown of a unit.
pub enum DisplayPlan {
    /// The surroundings of these lines.
    Around(Vec<usize>),
    /// The unit from this line on, counted from zero.
    From(usize),
    /// Nothing.
    Nothing,
}

/// The lines around which a unit is shown, if any. The lines that a pattern is
/// found in decide alone where there is a pattern; else those that the query is
/// found in; else those that represent the unit best.
pub open spec fn focus(
    pattern: Option<PatternMatcher>,
    query: PatternMatcher,
    unit: CodeUnit,
    representative: Seq<int>,
) -> Option<Seq<int>> {
    match pattern {
        Some(m) => Some(found_lines(m, unit)),
        None => if found_lines(query, unit).len() > 0 {
            Some(found_lines(query, unit))
        } else if representative.len() > 0 {
            Some(representative)
        } else {
            None
        },
    }
}

/// The line, counted from zero, that a unit starts in.
pub open spec fn first_line(unit: CodeUnit) -> int {
    if unit.line == 0 {
        0
    } else {
        unit.line - 1
    }
}

/// Plans what is shown of a unit in a file of some number of lines.
/// `representative` are the lines that represent the unit best. Where there is
/// nothing to show it around, the unit is shown from its start, if the file
/// reaches that far.
pub fn plan_display(
    pattern: &Option<PatternMatcher>,
    query: &PatternMatcher,
    unit: &CodeUnit,
    representative: Vec<usize>,
    file_lines: usize,
) -> (r: DisplayPlan)
    requires
        unit.lines_fit(),
    ensures
        match focus(*pattern, *query, *unit, numbers(representative@)) {
            Some(around) => r matches DisplayPlan::Around(v) && numbers(v@) == around,
            None => if first_line(*unit) < file_lines {
                r matches DisplayPlan::From(start) && start == first_line(*unit)
            } else {
                r is Nothing
            },
        },
{
    if let Some(m) = pattern {
        return DisplayPlan::Around(m.find_matches_in_unit(unit));
    }
    let found: Vec<usize> = query.find_matches_in_unit(unit);
    assert(numbers(found@).len() == found@.len());
    if found.len() > 0 {
        return DisplayPlan::Around(found);
    }
    assert(numbers(representative@).len() == representative@.len());
    if representative.len() > 0 {
        return DisplayPlan::Around(representative);
    }
    let start: usize = if unit.line == 0 {
        0
    } else {
        unit.line - 1
    };
    if start < file_lines {
        DisplayPlan::From(start)
    } else {
        DisplayPlan::Nothing
    }
}

/// What a unit is shown around: where there is a pattern, the lines that it is
/// found in, be there any or not; else the lines that the query is found in, if
/// any; else the representative lines, if any; and else nothing.
pub proof fn law_focus(
    m: PatternMatcher,
    query: PatternMatcher,
    unit: CodeUnit,
    representative: Seq<int>,
)
    ensures
        focus(Some(m), query, unit, representative) == Some(found_lines(m, unit)),
        found_lines(query, unit).len() > 0 ==> focus(None, query, unit, representative) == Some(
            found_lines(query, unit),
        ),
        found_lines(query, unit).len() == 0 && representative.len() > 0 ==> focus(
            None,
            query,
            unit,
            representative,
        ) == Some(representative),
        found_lines(query, unit).len() == 0 && representative.len() == 0 ==> focus(
            None,
            query,
            unit,
            representative,
        ) is None,
{
}

/// Lines are counted from one in units and from zero where they are shown.
pub proof fn law_first_line(unit: CodeUnit)
    ensures
        unit.line > 0 ==> first_line(unit) + 1 == unit.line,
        unit.line == 0 ==> first_line(unit) == 0,
{
}

} // verus!
