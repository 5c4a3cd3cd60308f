//! What was asked for on the command line.

use crate::text;
use vstd::prelude::*;

verus! {

/// The options and arguments of the command line.
#[derive(Debug)]
pub struct CliArgs {
    /// The configuration file.
    pub config: Option<String>,
    /// The poll interval in milliseconds.
    pub poll_ms: Option<u64>,
    /// How many lines are kept.
    pub max_buffer_lines: Option<usize>,
    /// The length to which lines are clipped.
    pub max_line_len: Option<usize>,
    /// Show timestamps.
    pub show_timestamps: bool,
    /// Do not show timestamps.
    pub no_timestamps: bool,
    /// Print the configuration and exit.
    pub print_config_only: bool,
    /// Print events to the standard output.
    pub headless: bool,
    /// Open the graphical interface.
    pub gui: bool,
    /// Text filters do not tell upper from lower case.
    pub case_insensitive_filter: bool,
    /// Text filters tell upper from lower case.
    pub case_sensitive_filter: bool,
    /// Patterns that hide lines.
    pub blacklist_regex: Vec<String>,
    /// Patterns that show lines all the same.
    pub whitelist_regex: Vec<String>,
    /// The files to track.
    pub files: Vec<String>,
}

/// The command line, as contracts speak of it.
pub struct CliView {
    pub config: Option<Seq<char>>,
    pub poll_ms: Option<u64>,
    pub max_buffer_lines: Option<usize>,
    pub max_line_len: Option<usize>,
    pub show_timestamps: bool,
    pub no_timestamps: bool,
    pub print_config_only: bool,
    pub headless: bool,
    pub gui: bool,
    pub case_insensitive_filter: bool,
    pub case_sensitive_filter: bool,
    pub blacklist_regex: Seq<Seq<char>>,
    pub whitelist_regex: Seq<Seq<char>>,
    pub files: Seq<Seq<char>>,
}

impl View for CliArgs {
    type V = CliView;

    open spec fn view(&self) -> CliView {
        CliView {
            config: match self.config {
                Some(path) => Some(path@),
                None => None,
            },
            poll_ms: self.poll_ms,
            max_buffer_lines: self.max_buffer_lines,
            max_line_len: self.max_line_len,
            show_timestamps: self.show_timestamps,
            no_timestamps: self.no_timestamps,
            print_config_only: self.print_config_only,
            headless: self.headless,
            gui: self.gui,
            case_insensitive_filter: self.case_insensitive_filter,
            case_sensitive_filter: self.case_sensitive_filter,
            blacklist_regex: text::texts(self.blacklist_regex@),
            whitelist_regex: text::texts(self.whitelist_regex@),
            files: text::texts(self.files@),
        }
    }
}

/// A command line without options and arguments.
pub open spec fn bare_command_line() -> CliView {
    CliView {
        config: None,
        poll_ms: None,
        max_buffer_lines: None,
        max_line_len: None,
        show_timestamps: false,
        no_timestamps: false,
        print_config_only: false,
        headless: false,
        gui: false,
        case_insensitive_filter: false,
        case_sensitive_filter: false,
        blacklist_regex: seq![],
        whitelist_regex: seq![],
        files: seq![],
    }
}

impl CliArgs {
    /// Whether the program that only opens a window turns the command line down.
    pub fn gui_program_refuses(&self) -> (res: bool)
        ensures
            res == (self@.headless || self@.print_config_only),
    {
        self.headless || self.print_config_only
    }
}

impl Default for CliArgs {
    fn default() -> (res: CliArgs)
        ensures
            res@ == bare_command_line(),
    {
        let res: CliArgs = CliArgs {
            config: None,
            poll_ms: None,
            max_buffer_lines: None,
            max_line_len: None,
            show_timestamps: false,
            no_timestamps: false,
            print_config_only: false,
            headless: false,
            gui: false,
            case_insensitive_filter: false,
            case_sensitive_filter: false,
            blacklist_regex: Vec::new(),
            whitelist_regex: Vec::new(),
            files: Vec::new(),
        };
        proof {
            assert(res@.blacklist_regex =~= seq![]);
            assert(res@.whitelist_regex =~= seq![]);
            assert(res@.files =~= seq![]);
        }
        res
    }
}

} // verus!
