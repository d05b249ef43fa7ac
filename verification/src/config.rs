//! What the viewer starts with: the state kept between sessions, the
//! configuration built from the command-line options, and which way the
//! program runs for a given set of options.

use vstd::prelude::*;

use crate::annotate::OutputFormat;
use crate::theme::ThemeArg;

verus! {

/// The part of the reader's state kept between sessions.
#[derive(Debug, Clone, Copy)]
pub struct PersistedState {
    /// The last theme the user selected.
    pub theme: ThemeArg,
}

impl Default for PersistedState {
    /// The state used when nothing was saved: the system theme.
    fn default() -> (r: Self)
        ensures
            r.theme == ThemeArg::System,
    {
        PersistedState { theme: ThemeArg::System }
    }
}

/// Configuration the viewer window is launched with.
#[derive(Debug, Clone)]
pub struct ViewerConfig {
    /// The theme named on the command line, or the system theme.
    pub theme: ThemeArg,
    /// Whether a theme was named on the command line; when not, a persisted
    /// theme takes precedence at startup.
    pub theme_explicit: bool,
    /// Reload the document when its file changes.
    pub watch: bool,
    /// Allow fetching remote images over the network.
    pub network_enabled: bool,
    /// Comments authored in the viewer are submitted as a review.
    pub review_mode: bool,
    /// Where a submitted review is written (standard output when `None`).
    pub review_out: Option<String>,
    /// The format of a submitted review.
    pub review_format: OutputFormat,
    /// Run the single-instance server, so later invocations open as tabs.
    /// A review window runs on its own and does not.
    pub ipc_enabled: bool,
}

impl ViewerConfig {
    /// The configuration for the command-line options: the named theme (the
    /// system theme when none is named), remote images unless disabled, and
    /// the single-instance server except in review mode.
    pub fn from_options(
        theme: Option<ThemeArg>,
        watch: bool,
        no_network: bool,
        review: bool,
        out: Option<String>,
        format: OutputFormat,
    ) -> (c: Self)
        ensures
            c.theme == (match theme {
                Some(t) => t,
                None => ThemeArg::System,
            }),
            c.theme_explicit == (theme is Some),
            c.watch == watch,
            c.network_enabled == !no_network,
            c.review_mode == review,
            c.review_out == out,
            c.review_format == format,
            c.ipc_enabled == !review,
    {
        let explicit = theme.is_some();
        let t = match theme {
            Some(t) => t,
            None => ThemeArg::System,
        };
        ViewerConfig {
            theme: t,
            theme_explicit: explicit,
            watch,
            network_enabled: !no_network,
            review_mode: review,
            review_out: out,
            review_format: format,
            ipc_enabled: !review,
        }
    }

    /// The theme the viewer opens with: the one named on the command line
    /// when it was named; otherwise the persisted one, when there is one;
    /// else the configured default.
    pub fn startup_theme(&self, persisted: Option<PersistedState>) -> (t: ThemeArg)
        ensures
            self.theme_explicit ==> t == self.theme,
            !self.theme_explicit ==> t == (match persisted {
                Some(p) => p.theme,
                None => self.theme,
            }),
    {
        if self.theme_explicit {
            self.theme
        } else {
            match persisted {
                Some(p) => p.theme,
                None => self.theme,
            }
        }
    }
}

/// The way the program runs for a set of command-line options.
#[derive(Debug, Clone, Copy, PartialEq, Eq, Structural)]
pub enum LaunchMode {
    /// Print the available themes and exit.
    ListThemes,
    /// Review mode was asked for without a file: an error (exit status 2).
    ReviewWithoutFile,
    /// A headless review turn: read the annotations, print the feedback,
    /// exit.
    HeadlessReview,
    /// One foreground window in review mode.
    ReviewWindow,
    /// View the markdown piped on standard input.
    Stdin,
    /// No file and nothing piped: an error (exit status 1).
    NoInput,
    /// View the files, each in its own tab.
    Files,
}

/// The launch mode for the options: listing themes comes first; then
/// review mode (headless when an annotations file is given), which needs a
/// file; then, without files, piped input; else the files.
pub open spec fn launch_mode_of(
    list_themes: bool,
    review: bool,
    has_annotations_in: bool,
    no_files: bool,
    stdin_is_pipe: bool,
) -> LaunchMode {
    if list_themes {
        LaunchMode::ListThemes
    } else if review && no_files {
        LaunchMode::ReviewWithoutFile
    } else if review && has_annotations_in {
        LaunchMode::HeadlessReview
    } else if review {
        LaunchMode::ReviewWindow
    } else if no_files {
        if stdin_is_pipe {
            LaunchMode::Stdin
        } else {
            LaunchMode::NoInput
        }
    } else {
        LaunchMode::Files
    }
}

/// Decides how the program runs for the given options.
pub fn launch_mode(
    list_themes: bool,
    review: bool,
    has_annotations_in: bool,
    no_files: bool,
    stdin_is_pipe: bool,
) -> (m: LaunchMode)
    ensures
        m == launch_mode_of(list_themes, review, has_annotations_in, no_files, stdin_is_pipe),
{
    if list_themes {
        LaunchMode::ListThemes
    } else if review && no_files {
        LaunchMode::ReviewWithoutFile
    } else if review && has_annotations_in {
        LaunchMode::HeadlessReview
    } else if review {
        LaunchMode::ReviewWindow
    } else if no_files {
        if stdin_is_pipe {
            LaunchMode::Stdin
        } else {
            LaunchMode::NoInput
        }
    } else {
        LaunchMode::Files
    }
}

/// What each combination of options runs. Given files, without the theme
/// list or review mode, the files open, whatever standard input is; whether
/// standard input is a pipe matters only without files and without review
/// mode, where a pipe is read and anything else is an error. The theme list
/// wins over everything; review mode needs a file and is headless exactly
/// when an annotations file is given; the annotations file matters to
/// nothing else.
pub proof fn launch_mode_table(
    list_themes: bool,
    review: bool,
    has_annotations_in: bool,
    no_files: bool,
    stdin_is_pipe: bool,
)
    ensures
        list_themes ==> launch_mode_of(list_themes, review, has_annotations_in, no_files, stdin_is_pipe)
            == LaunchMode::ListThemes,
        !list_themes && !review && !no_files ==> launch_mode_of(
            list_themes,
            review,
            has_annotations_in,
            no_files,
            stdin_is_pipe,
        ) == LaunchMode::Files,
        !list_themes && !review && no_files && stdin_is_pipe ==> launch_mode_of(
            list_themes,
            review,
            has_annotations_in,
            no_files,
            stdin_is_pipe,
        ) == LaunchMode::Stdin,
        !list_themes && !review && no_files && !stdin_is_pipe ==> launch_mode_of(
            list_themes,
            review,
            has_annotations_in,
            no_files,
            stdin_is_pipe,
        ) == LaunchMode::NoInput,
        !list_themes && review && no_files ==> launch_mode_of(
            list_themes,
            review,
            has_annotations_in,
            no_files,
            stdin_is_pipe,
        ) == LaunchMode::ReviewWithoutFile,
        !list_themes && review && !no_files && has_annotations_in ==> launch_mode_of(
            list_themes,
            review,
            has_annotations_in,
            no_files,
            stdin_is_pipe,
        ) == LaunchMode::HeadlessReview,
        !list_themes && review && !no_files && !has_annotations_in ==> launch_mode_of(
            list_themes,
            review,
            has_annotations_in,
            no_files,
            stdin_is_pipe,
        ) == LaunchMode::ReviewWindow,
        !(!list_themes && !review && no_files) ==> launch_mode_of(
            list_themes,
            review,
            has_annotations_in,
            no_files,
            true,
        ) == launch_mode_of(list_themes, review, has_annotations_in, no_files, false),
        !(!list_themes && review && !no_files) ==> launch_mode_of(
            list_themes,
            review,
            true,
            no_files,
            stdin_is_pipe,
        ) == launch_mode_of(list_themes, review, false, no_files, stdin_is_pipe),
{
}

} // verus!
