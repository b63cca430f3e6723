//! The settings of one run, as decided from the command line.

use vstd::prelude::*;
use crate::color::ColorDict;
use crate::text::{
    all_digits, chars_of, is_digit, is_digit_char, number, numeral_value, parse_number, texts,
};

verus! {

/// How setting up ended: with a value, with an error, or with nothing left
/// to do.
#[derive(Debug)]
pub enum XResult<T, S> {
    XOk(T),
    XErr(S),
    XExit,
}

/// An option whose value may be left out.
#[derive(Debug)]
pub enum OptArg {
    /// The option was not given.
    Absent,
    /// The option was given without a value.
    Bare,
    /// The option was given with this value.
    Value(String),
}

/// A path named on the command line.
#[derive(Debug)]
pub struct PathArg {
    /// The path as it was given.
    pub path: String,
    /// Something exists at the path.
    pub exists: bool,
}

/// What the command line held, option by option.
#[derive(Debug)]
pub struct CmdLine {
    /// `-h`: show help.
    pub help: bool,
    /// `-v`: show the version.
    pub version: bool,
    /// `-d [DEPTH]`: show directories up to this depth.
    pub depth: OptArg,
    /// `-a [N[KMG]]`: aggregate entries smaller than this.
    pub aggr: OptArg,
    /// `-s`: the same as `-d1 -a1M`.
    pub summary: bool,
    /// `-u`: report storage occupied instead of file sizes.
    pub usage: bool,
    /// `-b`: print sizes in bytes.
    pub bytes: bool,
    /// `-f`: skip directories.
    pub files_only: bool,
    /// `-x NAME`, any number of times: leave out entries of this name.
    pub exclude: Vec<String>,
    /// `-H`: leave out hidden entries.
    pub no_hidden: bool,
    /// `-A`: plain characters only, no colours.
    pub ascii: bool,
    /// The paths to measure.
    pub paths: Vec<PathArg>,
    /// Something exists at `DEFAULT_PATH`.
    pub default_exists: bool,
}

/// The settings of one run.
#[derive(Debug)]
pub struct Config {
    /// The paths to measure, never empty when made by [`Config::new`].
    pub paths: Vec<String>,
    /// The colours by class.
    pub color_dict: ColorDict,
    /// How many levels below each root are expanded, if `depth_flag`.
    pub depth: u8,
    /// The depth limit is on.
    pub depth_flag: bool,
    /// Sizes are written in bytes.
    pub bytes_flag: bool,
    /// Sizes are the storage occupied, not the lengths.
    pub usage_flag: bool,
    /// Hidden entries are left out.
    pub hiddn_flag: bool,
    /// Plain characters only, no colours.
    pub ascii_flag: bool,
    /// Directories are skipped.
    pub no_dir_flg: bool,
    /// Entries below this size are aggregated; zero turns that off.
    pub aggr: u64,
    /// Entries of these names are left out.
    pub exclude: Vec<String>,
}

/// The depth taken where none is given or the one given cannot be read.
pub const DEFAULT_DEPTH: u8 = 1;

/// The threshold that `-s` sets.
pub const SUMMARY_AGGR: u64 = 1024 * 1024;

/// What a whole text denotes as an unsigned number of at most `max`: decimal
/// digits, with at most one `+` before them.
pub open spec fn unsigned_value(s: Seq<char>, max: u64) -> Option<u64> {
    if s.len() > 0 && s[0] == '+' {
        numeral_value(s.drop_first(), max)
    } else {
        numeral_value(s, max)
    }
}

/// The depth that `text` asks for.
pub open spec fn depth_value(text: Seq<char>) -> u8 {
    match unsigned_value(text, u8::MAX as u64) {
        Some(d) => d as u8,
        None => DEFAULT_DEPTH,
    }
}

/// How many bytes the unit letter `c` stands for; one for any character that
/// is not a unit letter.
pub open spec fn unit_factor(c: char) -> nat {
    if c == 'k' || c == 'K' {
        1024
    } else if c == 'm' || c == 'M' {
        1024 * 1024
    } else if c == 'g' || c == 'G' {
        1024 * 1024 * 1024
    } else if c == 't' || c == 'T' {
        1024 * 1024 * 1024 * 1024
    } else {
        1
    }
}

/// The threshold in bytes that `text` denotes: one or more decimal digits,
/// then at most one more character, which is no digit and scales the number
/// by [`unit_factor`]. `None` for any other text and for a threshold above
/// `u64::MAX`.
pub open spec fn aggr_value(text: Seq<char>) -> Option<u64> {
    let suffixed = text.len() > 0 && !is_digit(text.last());
    let digits = if suffixed {
        text.drop_last()
    } else {
        text
    };
    let factor = if suffixed {
        unit_factor(text.last())
    } else {
        1
    };
    if digits.len() > 0 && all_digits(digits) && number(digits) * factor <= u64::MAX {
        Some((number(digits) * factor) as u64)
    } else {
        None
    }
}

/// The first of `paths` at which nothing exists.
pub open spec fn first_missing(paths: Seq<PathArg>) -> Option<Seq<char>>
    decreases paths.len(),
{
    if paths.len() == 0 {
        None
    } else if !paths[0].exists {
        Some(paths[0].path@)
    } else {
        first_missing(paths.drop_first())
    }
}

impl OptArg {
    /// The value to go by: none where the option is absent, `default` where
    /// it is bare.
    pub open spec fn value_or(self, default: Seq<char>) -> Option<Seq<char>> {
        match self {
            OptArg::Absent => None,
            OptArg::Bare => Some(default),
            OptArg::Value(v) => Some(v@),
        }
    }
}

impl CmdLine {
    /// Help or the version was asked for: there is nothing to measure.
    pub open spec fn wants_exit(&self) -> bool {
        self.help || self.version
    }

    /// The paths to measure: those given, or `DEFAULT_PATH` alone.
    pub open spec fn chosen_paths(&self) -> Seq<Seq<char>> {
        if self.paths.len() == 0 {
            seq![DEFAULT_PATH@]
        } else {
            self.paths@.map_values(|p: PathArg| p.path@)
        }
    }

    /// The first path to measure at which nothing exists.
    pub open spec fn missing_path(&self) -> Option<Seq<char>> {
        if self.paths.len() == 0 {
            if self.default_exists {
                None
            } else {
                Some(DEFAULT_PATH@)
            }
        } else {
            first_missing(self.paths@)
        }
    }

    /// What is wrong with the command line, if anything: a path at which
    /// nothing exists, else a threshold that cannot be read.
    pub open spec fn error_text(&self) -> Option<Seq<char>> {
        match self.missing_path() {
            Some(p) => Some("path "@ + p + " doesn't exist"@),
            None => match self.aggr.value_or(DEFAULT_AGGR@) {
                Some(t) => if aggr_value(t) is None {
                    Some("invalid argument '"@ + t + "'"@)
                } else {
                    None
                },
                None => None,
            },
        }
    }

    /// Whether the depth limit is on.
    pub open spec fn depth_flag(&self) -> bool {
        self.summary || !(self.depth is Absent)
    }

    /// The depth limit.
    pub open spec fn depth(&self) -> u8 {
        if self.summary {
            DEFAULT_DEPTH
        } else {
            match self.depth {
                OptArg::Value(v) => depth_value(v@),
                _ => DEFAULT_DEPTH,
            }
        }
    }

    /// The aggregation threshold; zero where none is asked for.
    pub open spec fn aggr(&self) -> u64 {
        if self.summary {
            SUMMARY_AGGR
        } else {
            match self.aggr.value_or(DEFAULT_AGGR@) {
                Some(t) => match aggr_value(t) {
                    Some(a) => a,
                    None => 0,
                },
                None => 0,
            }
        }
    }
}

/// Reads a depth: the number that `text` denotes, or `DEFAULT_DEPTH` where
/// it denotes none that fits.
pub fn parse_depth(text: &str) -> (depth: u8)
    ensures
        depth == depth_value(text@),
{
    let chars: Vec<char> = chars_of(text);
    let from: usize = if chars.len() > 0 && chars[0] == '+' {
        1
    } else {
        0
    };
    assert(chars@.subrange(from as int, chars.len() as int) == if from == 1 {
        chars@.drop_first()
    } else {
        chars@
    });
    match parse_number(&chars, from, chars.len(), 255) {
        Some(d) => d as u8,
        None => DEFAULT_DEPTH,
    }
}

/// The bytes that a unit letter stands for, see [`unit_factor`].
pub fn factor_of(c: char) -> (factor: u64)
    ensures
        factor == unit_factor(c),
{
    if c == 'k' || c == 'K' {
        1024
    } else if c == 'm' || c == 'M' {
        1024 * 1024
    } else if c == 'g' || c == 'G' {
        1024 * 1024 * 1024
    } else if c == 't' || c == 'T' {
        1024 * 1024 * 1024 * 1024
    } else {
        1
    }
}

/// Reads an aggregation threshold such as `512`, `64K` or `1M`, see
/// [`aggr_value`].
pub fn parse_aggr(text: &str) -> (aggr: Option<u64>)
    ensures
        aggr == aggr_value(text@),
{
    let chars: Vec<char> = chars_of(text);
    let len: usize = chars.len();
    let suffixed: bool = len > 0 && !is_digit_char(chars[len - 1]);
    let end: usize = if suffixed {
        len - 1
    } else {
        len
    };
    let factor: u64 = if suffixed {
        factor_of(chars[len - 1])
    } else {
        1
    };
    assert(chars@.subrange(0, end as int) == if suffixed {
        chars@.drop_last()
    } else {
        chars@
    });
    proof {
        let digits = chars@.subrange(0, end as int);
        assert(number(digits) * factor >= number(digits)) by (nonlinear_arith)
            requires
                factor >= 1,
        ;
    }
    match parse_number(&chars, 0, end, u64::MAX) {
        Some(n) => n.checked_mul(factor),
        None => None,
    }
}

impl CmdLine {
    /// Whether help or the version was asked for, see
    /// [`CmdLine::wants_exit`].
    pub fn exits(&self) -> (yes: bool)
        ensures
            yes == self.wants_exit(),
    {
        self.help || self.version
    }
}

impl Config {
    /// Whether these are the settings that `cmd` asks for, with the colour
    /// table `table`.
    pub open spec fn reflects(&self, cmd: &CmdLine, table: Map<Seq<char>, Seq<char>>) -> bool {
        &&& texts(self.paths@) == cmd.chosen_paths()
        &&& self.color_dict@ == table
        &&& self.depth == cmd.depth()
        &&& self.depth_flag == cmd.depth_flag()
        &&& self.bytes_flag == cmd.bytes
        &&& self.usage_flag == cmd.usage
        &&& self.hiddn_flag == cmd.no_hidden
        &&& self.ascii_flag == cmd.ascii
        &&& self.no_dir_flg == cmd.files_only
        &&& self.aggr == cmd.aggr()
        &&& texts(self.exclude@) == texts(cmd.exclude@)
    }

    /// Decides the settings of a run. Help and version end it at once. Else
    /// every path must exist, and a threshold given must be readable: the
    /// first of these that fails gives the error. `-s` overrides depth and
    /// threshold.
    #[verifier::rlimit(50)]
    pub fn new(cmd: &CmdLine, color_dict: ColorDict) -> (r: XResult<Config, String>)
        ensures
            match r {
                XResult::XExit => cmd.wants_exit(),
                XResult::XErr(msg) => !cmd.wants_exit() && cmd.error_text() == Some(msg@),
                XResult::XOk(cfg) => !cmd.wants_exit() && cmd.error_text() is None
                    && cfg.reflects(cmd, color_dict@),
            },
    {
        if cmd.exits() {
            return XResult::XExit;
        }
        let mut paths: Vec<String> = Vec::new();
        if cmd.paths.len() == 0 {
            if !cmd.default_exists {
                return XResult::XErr(missing_path_text(DEFAULT_PATH));
            }
            paths.push(DEFAULT_PATH.to_owned());
            assert(texts(paths@) == cmd.chosen_paths());
        } else {
            let mut i: usize = 0;
            assert(cmd.paths@.skip(0) == cmd.paths@);
            while i < cmd.paths.len()
                invariant
                    i <= cmd.paths.len(),
                    first_missing(cmd.paths@) == first_missing(cmd.paths@.skip(i as int)),
                    texts(paths@) == cmd.chosen_paths().take(i as int),
                    cmd.paths.len() > 0,
                    !cmd.wants_exit(),
                decreases cmd.paths.len() - i,
            {
                let ghost rest = cmd.paths@.skip(i as int);
                assert(rest.drop_first() == cmd.paths@.skip(i + 1));
                assert(rest[0] == cmd.paths@[i as int]);
                if !cmd.paths[i].exists {
                    return XResult::XErr(missing_path_text(cmd.paths[i].path.as_str()));
                }
                let path: String = cmd.paths[i].path.clone();
                let ghost before = paths@;
                paths.push(path);
                assert(texts(paths@) =~= texts(before).push(path@));
                assert(texts(paths@) =~= cmd.chosen_paths().take(i + 1));
                i = i + 1;
            }
            assert(cmd.chosen_paths().take(i as int) == cmd.chosen_paths());
        }
        let mut depth_flag: bool = !matches!(cmd.depth, OptArg::Absent);
        let mut depth: u8 = match &cmd.depth {
            OptArg::Value(v) => parse_depth(v.as_str()),
            _ => DEFAULT_DEPTH,
        };
        let given: Option<u64> = match &cmd.aggr {
            OptArg::Absent => Some(0),
            OptArg::Bare => parse_aggr(DEFAULT_AGGR),
            OptArg::Value(v) => parse_aggr(v.as_str()),
        };
        let mut aggr: u64 = match given {
            Some(a) => a,
            None => {
                let text: &str = match &cmd.aggr {
                    OptArg::Value(v) => v.as_str(),
                    _ => DEFAULT_AGGR,
                };
                let mut msg: String = String::from_str("invalid argument '");
                msg.append(text);
                msg.append("'");
                return XResult::XErr(msg);
            },
        };
        if cmd.summary {
            depth_flag = true;
            depth = DEFAULT_DEPTH;
            aggr = SUMMARY_AGGR;
        }
        let mut exclude: Vec<String> = Vec::new();
        let mut j: usize = 0;
        while j < cmd.exclude.len()
            invariant
                j <= cmd.exclude.len(),
                texts(exclude@) == texts(cmd.exclude@).take(j as int),
            decreases cmd.exclude.len() - j,
        {
            let name: String = cmd.exclude[j].clone();
            let ghost before = exclude@;
            exclude.push(name);
            assert(texts(exclude@) =~= texts(before).push(name@));
            assert(texts(exclude@) =~= texts(cmd.exclude@).take(j + 1));
            j = j + 1;
        }
        assert(texts(cmd.exclude@).take(j as int) == texts(cmd.exclude@));
        XResult::XOk(
            Config {
                paths,
                color_dict,
                depth,
                depth_flag,
                bytes_flag: cmd.bytes,
                usage_flag: cmd.usage,
                hiddn_flag: cmd.no_hidden,
                ascii_flag: cmd.ascii,
                no_dir_flg: cmd.files_only,
                aggr,
                exclude,
            },
        )
    }
}

/// The error for a path at which nothing exists.
fn missing_path_text(path: &str) -> (msg: String)
    ensures
        msg@ == "path "@ + path@ + " doesn't exist"@,
{
    let mut msg: String = String::from_str("path ");
    msg.append(path);
    msg.append(" doesn't exist");
    msg
}

/// The path measured where none is given.
pub const DEFAULT_PATH: &'static str = ".";

/// The threshold taken where `-a` is given without a value.
pub const DEFAULT_AGGR: &'static str = "1M";

} // verus!
