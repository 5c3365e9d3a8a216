//! The command line.

use vstd::prelude::*;
use vstd::string::*;

use crate::text::{chars_of, is_at, same_text};

verus! {

/// What the command line asks for.
#[derive(Debug)]
pub struct Args {
    pub threads: usize,
    pub project_config: Option<String>,
    pub python_path: Option<String>,
    pub batch: Option<String>,
    pub serve: bool,
    pub root: String,
}

/// The flags that take a value.
#[derive(Clone, Copy, PartialEq, Eq, Structural, Debug)]
pub enum ValueFlag {
    Threads,
    Project,
    PythonPath,
    Batch,
}

/// Why a command line is refused.
#[derive(Clone, Copy, PartialEq, Eq, Structural, Debug)]
pub enum ArgsError {
    /// A flag stands last, without its value.
    MissingValue(ValueFlag),
    /// The number of threads is not one.
    InvalidThreads,
    MissingRoot,
}

impl ArgsError {
    pub open spec fn text(self) -> Seq<char> {
        match self {
            ArgsError::MissingValue(ValueFlag::Threads) => "--threads requires a value"@,
            ArgsError::MissingValue(ValueFlag::Project) => "--project requires a value"@,
            ArgsError::MissingValue(ValueFlag::PythonPath) => "--pythonpath requires a value"@,
            ArgsError::MissingValue(ValueFlag::Batch) => "--batch requires a value"@,
            ArgsError::InvalidThreads => "--threads value must be an integer"@,
            ArgsError::MissingRoot => "missing root path argument"@,
        }
    }

    pub fn message(self) -> (message: &'static str)
        ensures
            message@ == self.text(),
    {
        match self {
            ArgsError::MissingValue(ValueFlag::Threads) => "--threads requires a value",
            ArgsError::MissingValue(ValueFlag::Project) => "--project requires a value",
            ArgsError::MissingValue(ValueFlag::PythonPath) => "--pythonpath requires a value",
            ArgsError::MissingValue(ValueFlag::Batch) => "--batch requires a value",
            ArgsError::InvalidThreads => "--threads value must be an integer",
            ArgsError::MissingRoot => "missing root path argument",
        }
    }
}

// -- numbers ----------------------------------------------------------------------------

pub open spec fn digit(c: char) -> bool {
    '0' <= c <= '9'
}

/// The number that a sequence of decimal digits stands for.
pub open spec fn digits_value(s: Seq<char>) -> nat
    decreases s.len(),
{
    if s.len() == 0 {
        0
    } else {
        10 * digits_value(s.drop_last()) + (s.last() as nat - '0' as nat) as nat
    }
}

/// The digits of a number: a plus sign may stand before them.
pub open spec fn unsigned_digits(s: Seq<char>) -> Seq<char> {
    if s.len() > 0 && s[0] == '+' {
        s.skip(1)
    } else {
        s
    }
}

/// Whether a text is a number that a `usize` holds.
pub open spec fn is_usize(s: Seq<char>) -> bool {
    let digits = unsigned_digits(s);
    &&& digits.len() > 0
    &&& forall|i: int| 0 <= i < digits.len() ==> digit(#[trigger] digits[i])
    &&& digits_value(digits) <= usize::MAX
}

/// More digits make no smaller number.
proof fn lemma_digits_prefix(s: Seq<char>, n: int)
    requires
        0 <= n <= s.len(),
    ensures
        digits_value(s.take(n)) <= digits_value(s),
    decreases s.len(),
{
    if n == s.len() {
        assert(s.take(n) == s);
    } else {
        assert(s.drop_last().take(n) == s.take(n));
        lemma_digits_prefix(s.drop_last(), n);
    }
}

/// Reads an unsigned decimal number.
fn parse_usize(text: &str) -> (value: Option<usize>)
    ensures
        match value {
            Some(n) => is_usize(text@) && n == digits_value(unsigned_digits(text@)),
            None => !is_usize(text@),
        },
{
    let s = chars_of(text);
    let start: usize = if s.len() > 0 && s[0] == '+' {
        1
    } else {
        0
    };
    let ghost digits = unsigned_digits(s@);
    assert(digits == s@.skip(start as int));
    if start >= s.len() {
        return None;
    }
    let mut value: usize = 0;
    let mut i: usize = start;
    while i < s.len()
        invariant
            start <= i <= s@.len(),
            s@ == text@,
            digits == unsigned_digits(s@),
            digits == s@.skip(start as int),
            forall|j: int| 0 <= j < i - start ==> digit(#[trigger] digits[j]),
            value == digits_value(digits.take(i - start)),
        decreases s@.len() - i,
    {
        let c = s[i];
        assert(c == digits[i - start]);
        if !('0' <= c && c <= '9') {
            return None;
        }
        let d: usize = (c as u32 - '0' as u32) as usize;
        proof {
            let longer = digits.take(i + 1 - start);
            assert(longer.drop_last() == digits.take(i - start));
            lemma_digits_prefix(digits, i + 1 - start);
        }
        match value.checked_mul(10) {
            None => {
                return None;
            },
            Some(tens) => match tens.checked_add(d) {
                None => {
                    return None;
                },
                Some(sum) => {
                    value = sum;
                },
            },
        }
        i += 1;
    }
    assert(digits.take(i - start) == digits);
    Some(value)
}

// -- arguments --------------------------------------------------------------------------

/// The arguments read so far.
#[verifier::ext_equal]
pub struct ArgsView {
    pub threads: usize,
    pub project_config: Option<Seq<char>>,
    pub python_path: Option<Seq<char>>,
    pub batch: Option<Seq<char>>,
    pub serve: bool,
    pub root: Option<Seq<char>>,
}

/// Nothing read yet.
pub open spec fn no_args() -> ArgsView {
    ArgsView {
        threads: 4,
        project_config: None,
        python_path: None,
        batch: None,
        serve: false,
        root: None,
    }
}

/// The flag with a value that an argument is.
pub open spec fn value_flag(arg: Seq<char>) -> Option<ValueFlag> {
    if arg == "--threads"@ {
        Some(ValueFlag::Threads)
    } else if arg == "--project"@ || arg == "-p"@ {
        Some(ValueFlag::Project)
    } else if arg == "--pythonpath"@ {
        Some(ValueFlag::PythonPath)
    } else if arg == "--batch"@ {
        Some(ValueFlag::Batch)
    } else {
        None
    }
}

/// The arguments after a flag with its value.
pub open spec fn with_value(args: ArgsView, flag: ValueFlag, value: Seq<char>) -> Result<
    ArgsView,
    ArgsError,
> {
    match flag {
        ValueFlag::Threads => if is_usize(value) {
            Ok(ArgsView { threads: digits_value(unsigned_digits(value)) as usize, ..args })
        } else {
            Err(ArgsError::InvalidThreads)
        },
        ValueFlag::Project => Ok(ArgsView { project_config: Some(value), ..args }),
        ValueFlag::PythonPath => Ok(ArgsView { python_path: Some(value), ..args }),
        ValueFlag::Batch => Ok(ArgsView { batch: Some(value), ..args }),
    }
}

/// The arguments after one that takes no value: `--serve` is a flag, any other argument
/// that starts with `--` is ignored, and the rest are roots, of which the last counts.
pub open spec fn with_plain(args: ArgsView, arg: Seq<char>) -> ArgsView {
    if arg == "--serve"@ {
        ArgsView { serve: true, ..args }
    } else if crate::text::occurs_at(arg, "--"@, 0) {
        args
    } else {
        ArgsView { root: Some(arg), ..args }
    }
}

/// The command line from position `from` on, read on top of `args`.
pub open spec fn read_args(line: Seq<String>, from: int, args: ArgsView) -> Result<
    ArgsView,
    ArgsError,
>
    decreases line.len() - from,
{
    if from < 0 || from >= line.len() {
        if args.root is Some {
            Ok(args)
        } else {
            Err(ArgsError::MissingRoot)
        }
    } else {
        match value_flag(line[from]@) {
            None => read_args(line, from + 1, with_plain(args, line[from]@)),
            Some(flag) => if from + 1 >= line.len() {
                Err(ArgsError::MissingValue(flag))
            } else {
                match with_value(args, flag, line[from + 1]@) {
                    Ok(next) => read_args(line, from + 2, next),
                    Err(error) => Err(error),
                }
            },
        }
    }
}

pub open spec fn optional_view(text: Option<String>) -> Option<Seq<char>> {
    match text {
        Some(text) => Some(text@),
        None => None,
    }
}

impl View for Args {
    type V = ArgsView;

    open spec fn view(&self) -> ArgsView {
        ArgsView {
            threads: self.threads,
            project_config: optional_view(self.project_config),
            python_path: optional_view(self.python_path),
            batch: optional_view(self.batch),
            serve: self.serve,
            root: Some(self.root@),
        }
    }
}

fn as_value_flag(arg: &str) -> (flag: Option<ValueFlag>)
    ensures
        flag == value_flag(arg@),
{
    if same_text(arg, "--threads") {
        Some(ValueFlag::Threads)
    } else if same_text(arg, "--project") || same_text(arg, "-p") {
        Some(ValueFlag::Project)
    } else if same_text(arg, "--pythonpath") {
        Some(ValueFlag::PythonPath)
    } else if same_text(arg, "--batch") {
        Some(ValueFlag::Batch)
    } else {
        None
    }
}

fn starts_with_dashes(arg: &str) -> (answer: bool)
    ensures
        answer == crate::text::occurs_at(arg@, "--"@, 0),
{
    let s = chars_of(arg);
    let dashes = chars_of("--");
    is_at(&s, &dashes, 0)
}

/// Reads the command line (without the name of the program). A later flag overrides an
/// earlier one; unknown flags are ignored.
pub fn parse_args(line: &Vec<String>) -> (args: Result<Args, ArgsError>)
    ensures
        match args {
            Ok(args) => read_args(line@, 0, no_args()) == Ok::<ArgsView, ArgsError>(args@),
            Err(error) => read_args(line@, 0, no_args()) == Err::<ArgsView, ArgsError>(error),
        },
{
    let mut threads: usize = 4;
    let mut project_config: Option<String> = None;
    let mut python_path: Option<String> = None;
    let mut batch: Option<String> = None;
    let mut serve = false;
    let mut root: Option<String> = None;
    let mut i: usize = 0;
    while i < line.len()
        invariant
            i <= line@.len(),
            read_args(line@, 0, no_args()) == read_args(
                line@,
                i as int,
                ArgsView {
                    threads,
                    project_config: optional_view(project_config),
                    python_path: optional_view(python_path),
                    batch: optional_view(batch),
                    serve,
                    root: optional_view(root),
                },
            ),
        decreases line@.len() - i,
    {
        let arg = line[i].as_str();
        match as_value_flag(arg) {
            Some(flag) => {
                if line.len() - i < 2 {
                    return Err(ArgsError::MissingValue(flag));
                }
                let value = line[i + 1].clone();
                match flag {
                    ValueFlag::Threads => match parse_usize(value.as_str()) {
                        Some(n) => {
                            threads = n;
                        },
                        None => {
                            return Err(ArgsError::InvalidThreads);
                        },
                    },
                    ValueFlag::Project => {
                        project_config = Some(value);
                    },
                    ValueFlag::PythonPath => {
                        python_path = Some(value);
                    },
                    ValueFlag::Batch => {
                        batch = Some(value);
                    },
                }
                i += 2;
            },
            None => {
                if same_text(arg, "--serve") {
                    serve = true;
                } else if !starts_with_dashes(arg) {
                    root = Some(line[i].clone());
                }
                i += 1;
            },
        }
    }
    match root {
        Some(root) => Ok(Args { threads, project_config, python_path, batch, serve, root }),
        None => Err(ArgsError::MissingRoot),
    }
}

/// Whether the command line asks for the version; this is looked at before anything else,
/// so no root is needed.
pub fn wants_version(line: &Vec<String>) -> (answer: bool)
    ensures
        answer == exists|i: int| 0 <= i < line@.len() && (#[trigger] line@[i])@ == "--version"@,
{
    let mut i: usize = 0;
    while i < line.len()
        invariant
            i <= line@.len(),
            forall|j: int| 0 <= j < i ==> (#[trigger] line@[j])@ != "--version"@,
        decreases line@.len() - i,
    {
        if same_text(line[i].as_str(), "--version") {
            assert(line@[i as int]@ == "--version"@);
            return true;
        }
        i += 1;
    }
    false
}

/// What `--version` prints.
pub fn version_line(commit: &str) -> (text: String)
    ensures
        text@ == "ty-unnecessary "@ + commit@,
{
    "ty-unnecessary ".to_owned().concat(commit)
}

} // verus!
