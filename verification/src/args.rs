//! The command line of the suite: which words it understands, what each
//! sets, and what is put right when a number is missing or zero. The scale is
//! a real number and is handed on as text for the caller to read.

use vstd::prelude::*;

verus! {

/// Runs made when `--count` is not given.
pub const DEFAULT_COUNT: usize = 3;

/// Threads used when `--thread` is not given, or given as 0.
pub const DEFAULT_THREADS: usize = 4;

/// Block size in bytes when `--block-size` is not given, or given as 0.
pub const DEFAULT_BLOCK_SIZE: usize = 524288;

/// Something on the command line that was passed over or put right.
#[derive(Clone, Copy, Debug, PartialEq, Eq, Structural)]
pub enum ArgIssue {
    /// `--scale` was the last word.
    MissingScale,
    /// `--count` was the last word.
    MissingCount,
    /// `--thread` was the last word.
    MissingThread,
    /// `--block-size` was the last word.
    MissingBlockSize,
    /// The word at this index is not an option.
    Unknown(usize),
    /// The count was 0 and became 1.
    ZeroCount,
    /// The thread count was 0 and became the default.
    ZeroThreads,
    /// The block size was 0 and became the default.
    ZeroBlockSize,
}

/// What the command line asks for.
#[derive(Clone, Debug)]
pub struct CommandLine {
    /// The word after the last `--scale`, unread.
    pub scale_text: Option<String>,
    pub count: usize,
    pub threads: usize,
    pub block_size: usize,
    pub csv: bool,
    pub json: bool,
    pub board_game: bool,
    /// A help flag was met; reading stopped there.
    pub help: bool,
    /// What was passed over or put right, in the order it was met.
    pub issues: Vec<ArgIssue>,
}

/// A command line as plain values.
pub struct CommandLineView {
    pub scale_text: Option<Seq<char>>,
    pub count: usize,
    pub threads: usize,
    pub block_size: usize,
    pub csv: bool,
    pub json: bool,
    pub board_game: bool,
    pub help: bool,
    pub issues: Seq<ArgIssue>,
}

impl View for CommandLine {
    type V = CommandLineView;

    open spec fn view(&self) -> CommandLineView {
        CommandLineView {
            scale_text: match self.scale_text {
                Some(text) => Some(text@),
                None => None,
            },
            count: self.count,
            threads: self.threads,
            block_size: self.block_size,
            csv: self.csv,
            json: self.json,
            board_game: self.board_game,
            help: self.help,
            issues: self.issues@,
        }
    }
}

/// The value of a decimal digit.
pub open spec fn digit_value(c: char) -> Option<nat> {
    if '0' <= c && c <= '9' {
        Some((c as nat - '0' as nat) as nat)
    } else {
        None
    }
}

/// The number that a non-empty run of decimal digits writes; `None` for the
/// empty text and for text with anything but digits in it.
pub open spec fn digits_value(s: Seq<char>) -> Option<nat>
    decreases s.len(),
{
    if s.len() == 0 {
        None
    } else if s.len() == 1 {
        digit_value(s[0])
    } else {
        match (digits_value(s.drop_last()), digit_value(s.last())) {
            (Some(high), Some(low)) => Some(high * 10 + low),
            _ => None,
        }
    }
}

/// The unsigned number that a text writes: digits, with one `+` allowed in
/// front, and a value that fits the machine word.
pub open spec fn decimal_usize(s: Seq<char>) -> Option<usize> {
    let digits = if s.len() > 0 && s[0] == '+' {
        s.subrange(1, s.len() as int)
    } else {
        s
    };
    match digits_value(digits) {
        Some(value) => if value <= usize::MAX {
            Some(value as usize)
        } else {
            None
        },
        None => None,
    }
}

/// The number that a text writes, or the fallback where it writes none.
pub open spec fn number_or(text: Seq<char>, fallback: usize) -> usize {
    match decimal_usize(text) {
        Some(value) => value,
        None => fallback,
    }
}

/// The command line before any word is read.
pub open spec fn defaults() -> CommandLineView {
    CommandLineView {
        scale_text: None,
        count: DEFAULT_COUNT,
        threads: DEFAULT_THREADS,
        block_size: DEFAULT_BLOCK_SIZE,
        csv: false,
        json: false,
        board_game: false,
        help: false,
        issues: Seq::empty(),
    }
}

/// `state` with one more issue noted.
pub open spec fn with_issue(state: CommandLineView, issue: ArgIssue) -> CommandLineView {
    CommandLineView { issues: state.issues.push(issue), ..state }
}

/// Reads the words from index `i` on into `state`. An option that takes a
/// value reads the next word as well; as the last word it is an issue. A
/// value that is no number gives 1 for the count and the default for the
/// threads and the block size. A help flag ends the reading.
pub open spec fn parse_from(args: Seq<Seq<char>>, i: int, state: CommandLineView) -> CommandLineView
    decreases args.len() - i,
{
    if i < 0 || i >= args.len() {
        state
    } else {
        let arg = args[i];
        let has_value = i + 1 < args.len();
        if arg == "--scale"@ {
            if has_value {
                parse_from(args, i + 2, CommandLineView { scale_text: Some(args[i + 1]), ..state })
            } else {
                parse_from(args, i + 1, with_issue(state, ArgIssue::MissingScale))
            }
        } else if arg == "--count"@ {
            if has_value {
                parse_from(
                    args,
                    i + 2,
                    CommandLineView { count: number_or(args[i + 1], 1), ..state },
                )
            } else {
                parse_from(args, i + 1, with_issue(state, ArgIssue::MissingCount))
            }
        } else if arg == "--thread"@ {
            if has_value {
                parse_from(
                    args,
                    i + 2,
                    CommandLineView { threads: number_or(args[i + 1], DEFAULT_THREADS), ..state },
                )
            } else {
                parse_from(args, i + 1, with_issue(state, ArgIssue::MissingThread))
            }
        } else if arg == "--block-size"@ {
            if has_value {
                parse_from(
                    args,
                    i + 2,
                    CommandLineView {
                        block_size: number_or(args[i + 1], DEFAULT_BLOCK_SIZE),
                        ..state
                    },
                )
            } else {
                parse_from(args, i + 1, with_issue(state, ArgIssue::MissingBlockSize))
            }
        } else if arg == "--csv"@ {
            parse_from(args, i + 1, CommandLineView { csv: true, ..state })
        } else if arg == "--json"@ {
            parse_from(args, i + 1, CommandLineView { json: true, ..state })
        } else if arg == "--board-game"@ {
            parse_from(args, i + 1, CommandLineView { board_game: true, ..state })
        } else if arg == "--help"@ || arg == "-h"@ {
            CommandLineView { help: true, ..state }
        } else {
            parse_from(args, i + 1, with_issue(state, ArgIssue::Unknown(i as usize)))
        }
    }
}

/// `state` with every zero replaced: the count by 1, the threads and the
/// block size by their defaults, each noted as an issue.
pub open spec fn validated(state: CommandLineView) -> CommandLineView {
    let counted = if state.count == 0 {
        CommandLineView { count: 1, ..with_issue(state, ArgIssue::ZeroCount) }
    } else {
        state
    };
    let threaded = if counted.threads == 0 {
        CommandLineView { threads: DEFAULT_THREADS, ..with_issue(counted, ArgIssue::ZeroThreads) }
    } else {
        counted
    };
    if threaded.block_size == 0 {
        CommandLineView {
            block_size: DEFAULT_BLOCK_SIZE,
            ..with_issue(threaded, ArgIssue::ZeroBlockSize)
        }
    } else {
        threaded
    }
}

/// What a command line asks for. The word at index 0 names the program and
/// is not read. Where help is asked for, the reading stops and nothing is
/// put right.
pub open spec fn parse_spec(args: Seq<Seq<char>>) -> CommandLineView {
    let read = parse_from(args, 1, defaults());
    if read.help {
        read
    } else {
        validated(read)
    }
}

/// The words of a command line as plain text.
pub open spec fn arg_texts(args: Seq<String>) -> Seq<Seq<char>> {
    Seq::new(args.len(), |i: int| args[i]@)
}

/// Whatever the command line says, the counts that come out are positive.
pub proof fn lemma_validated_is_positive(state: CommandLineView)
    ensures
        validated(state).count >= 1,
        validated(state).threads >= 1,
        validated(state).block_size >= 1,
        state.count >= 1 && state.threads >= 1 && state.block_size >= 1 ==> validated(state)
            == state,
{
}

/// `str::parse` for `usize`, with the error dropped: the number that the
/// text writes in decimal digits, with an optional `+` in front, if it fits;
/// `None` for anything else, the empty text, blanks and a `-` included.
#[verifier::external_body]
fn parse_usize(text: &String) -> (number: Option<usize>)
    ensures
        number == decimal_usize(text@),
{
    text.parse::<usize>().ok()
}

fn number_or_default(text: &String, fallback: usize) -> (number: usize)
    ensures
        number == number_or(text@, fallback),
{
    match parse_usize(text) {
        Some(value) => value,
        None => fallback,
    }
}

impl CommandLine {
    /// Reads a command line, program name first.
    pub fn parse_from(cli_args: &Vec<String>) -> (parsed: CommandLine)
        ensures
            parsed@ == parse_spec(arg_texts(cli_args@)),
    {
        let mut parsed = CommandLine {
            scale_text: None,
            count: DEFAULT_COUNT,
            threads: DEFAULT_THREADS,
            block_size: DEFAULT_BLOCK_SIZE,
            csv: false,
            json: false,
            board_game: false,
            help: false,
            issues: Vec::new(),
        };
        let scale_flag = "--scale".to_string();
        let count_flag = "--count".to_string();
        let thread_flag = "--thread".to_string();
        let block_size_flag = "--block-size".to_string();
        let csv_flag = "--csv".to_string();
        let json_flag = "--json".to_string();
        let board_game_flag = "--board-game".to_string();
        let help_flag = "--help".to_string();
        let short_help_flag = "-h".to_string();
        let ghost texts = arg_texts(cli_args@);
        assert(parsed@ == defaults());
        let n = cli_args.len();
        let mut i: usize = 1;
        while i < n
            invariant
                1 <= i,
                n == cli_args@.len(),
                texts == arg_texts(cli_args@),
                scale_flag@ == "--scale"@,
                count_flag@ == "--count"@,
                thread_flag@ == "--thread"@,
                block_size_flag@ == "--block-size"@,
                csv_flag@ == "--csv"@,
                json_flag@ == "--json"@,
                board_game_flag@ == "--board-game"@,
                help_flag@ == "--help"@,
                short_help_flag@ == "-h"@,
                !parsed.help,
                parse_from(texts, i as int, parsed@) == parse_from(texts, 1, defaults()),
            decreases n - i,
        {
            let has_value = i + 1 < n;
            assert(texts[i as int] == cli_args@[i as int]@);
            if has_value {
                assert(texts[i + 1] == cli_args@[i + 1]@);
            }
            if cli_args[i] == scale_flag {
                if has_value {
                    parsed.scale_text = Some(cli_args[i + 1].clone());
                    i += 2;
                } else {
                    parsed.issues.push(ArgIssue::MissingScale);
                    i += 1;
                }
            } else if cli_args[i] == count_flag {
                if has_value {
                    parsed.count = number_or_default(&cli_args[i + 1], 1);
                    i += 2;
                } else {
                    parsed.issues.push(ArgIssue::MissingCount);
                    i += 1;
                }
            } else if cli_args[i] == thread_flag {
                if has_value {
                    parsed.threads = number_or_default(&cli_args[i + 1], DEFAULT_THREADS);
                    i += 2;
                } else {
                    parsed.issues.push(ArgIssue::MissingThread);
                    i += 1;
                }
            } else if cli_args[i] == block_size_flag {
                if has_value {
                    parsed.block_size = number_or_default(&cli_args[i + 1], DEFAULT_BLOCK_SIZE);
                    i += 2;
                } else {
                    parsed.issues.push(ArgIssue::MissingBlockSize);
                    i += 1;
                }
            } else if cli_args[i] == csv_flag {
                parsed.csv = true;
                i += 1;
            } else if cli_args[i] == json_flag {
                parsed.json = true;
                i += 1;
            } else if cli_args[i] == board_game_flag {
                parsed.board_game = true;
                i += 1;
            } else if cli_args[i] == help_flag || cli_args[i] == short_help_flag {
                parsed.help = true;
                return parsed;
            } else {
                parsed.issues.push(ArgIssue::Unknown(i));
                i += 1;
            }
        }
        if parsed.count == 0 {
            parsed.issues.push(ArgIssue::ZeroCount);
            parsed.count = 1;
        }
        if parsed.threads == 0 {
            parsed.issues.push(ArgIssue::ZeroThreads);
            parsed.threads = DEFAULT_THREADS;
        }
        if parsed.block_size == 0 {
            parsed.issues.push(ArgIssue::ZeroBlockSize);
            parsed.block_size = DEFAULT_BLOCK_SIZE;
        }
        parsed
    }
}

} // verus!
