//! Command-line argument parsing over a plain argument vector.

use crate::strutil::str_eq;
use vstd::prelude::*;
use vstd::string::StrSliceExecFns;
use vstd::string::StringExecFns;

verus! {

/// The parsed invocation.
pub struct Cli {
    pub command: Commands,
    /// Print plain progress lines instead of the full-screen display.
    pub no_tui: bool,
    /// Port override for the direct connection.
    pub port: Option<u16>,
    pub verbose: bool,
}

/// Which operation was asked for.
pub enum Commands {
    /// Send a file or directory.
    Send { path: Option<String>, code: Option<String>, words: u64 },
    /// Receive a file or directory.
    Receive { code: String, output: Option<String>, resume: bool },
}

/// The view of an optional string.
pub open spec fn opt_view(o: Option<String>) -> Option<Seq<char>> {
    match o {
        Some(s) => Some(s@),
        None => None,
    }
}

/// The mathematical shape of a parsed command.
pub enum CommandsV {
    Send { path: Option<Seq<char>>, code: Option<Seq<char>>, words: u64 },
    Receive { code: Seq<char>, output: Option<Seq<char>>, resume: bool },
}

/// The mathematical shape of a parsed invocation.
pub struct CliV {
    pub command: CommandsV,
    pub no_tui: bool,
    pub port: Option<u16>,
    pub verbose: bool,
}

impl View for Commands {
    type V = CommandsV;

    open spec fn view(&self) -> CommandsV {
        match self {
            Commands::Send { path, code, words } => (CommandsV::Send {
                path: opt_view(*path),
                code: opt_view(*code),
                words: *words,
            }),
            Commands::Receive { code, output, resume } => (CommandsV::Receive {
                code: code@,
                output: opt_view(*output),
                resume: *resume,
            }),
        }
    }
}

impl View for Cli {
    type V = CliV;

    open spec fn view(&self) -> CliV {
        CliV { command: self.command@, no_tui: self.no_tui, port: self.port, verbose: self.verbose }
    }
}

/// The option values gathered while walking the argument list.
pub struct ArgsAcc {
    pub no_tui: bool,
    pub verbose: bool,
    pub port: Option<u16>,
    pub code: Option<Seq<char>>,
    pub output: Option<Seq<char>>,
    pub resume: bool,
    pub words: u64,
    pub positional: Option<Seq<char>>,
}

/// The state before any option is seen: three code words by default.
pub open spec fn init_acc() -> ArgsAcc {
    ArgsAcc {
        no_tui: false,
        verbose: false,
        port: None,
        code: None,
        output: None,
        resume: false,
        words: 3,
        positional: None,
    }
}

/// One pass over the arguments from position `i`: each flag sets its field,
/// a value-taking option consumes the next argument, the first free argument
/// becomes the positional, and anything else refuses the invocation.
pub open spec fn parse_flags(args: Seq<Seq<char>>, i: int, is_send: bool, acc: ArgsAcc) -> Option<
    ArgsAcc,
>
    decreases args.len() - i,
{
    if i < 0 || i >= args.len() {
        Some(acc)
    } else {
        let a = args[i];
        if a == "--no-tui"@ {
            parse_flags(args, i + 1, is_send, ArgsAcc { no_tui: true, ..acc })
        } else if a == "-v"@ || a == "--verbose"@ {
            parse_flags(args, i + 1, is_send, ArgsAcc { verbose: true, ..acc })
        } else if a == "-p"@ || a == "--port"@ {
            if i + 1 >= args.len() {
                None
            } else if !dec_digits(args[i + 1]) || dec_val(args[i + 1]) > u16::MAX {
                None
            } else {
                parse_flags(
                    args,
                    i + 2,
                    is_send,
                    ArgsAcc { port: Some(dec_val(args[i + 1]) as u16), ..acc },
                )
            }
        } else if is_send && (a == "-c"@ || a == "--code"@) {
            if i + 1 >= args.len() {
                None
            } else {
                parse_flags(args, i + 2, is_send, ArgsAcc { code: Some(args[i + 1]), ..acc })
            }
        } else if is_send && (a == "-w"@ || a == "--words"@) {
            if i + 1 >= args.len() {
                None
            } else if !dec_digits(args[i + 1]) || dec_val(args[i + 1]) > u64::MAX {
                None
            } else {
                parse_flags(
                    args,
                    i + 2,
                    is_send,
                    ArgsAcc { words: dec_val(args[i + 1]) as u64, ..acc },
                )
            }
        } else if !is_send && (a == "-o"@ || a == "--output"@) {
            if i + 1 >= args.len() {
                None
            } else {
                parse_flags(args, i + 2, is_send, ArgsAcc { output: Some(args[i + 1]), ..acc })
            }
        } else if !is_send && (a == "-r"@ || a == "--resume"@) {
            parse_flags(args, i + 1, is_send, ArgsAcc { resume: true, ..acc })
        } else if acc.positional is None {
            parse_flags(args, i + 1, is_send, ArgsAcc { positional: Some(a), ..acc })
        } else {
            None
        }
    }
}

/// The whole parse: a `send` or `receive` subcommand first, then its options;
/// `receive` demands its transfer code. `parse_args` is held to this
/// function in both directions.
pub open spec fn parse_args_spec(args: Seq<Seq<char>>) -> Option<CliV> {
    if args.len() == 0 {
        None
    } else if args[0] == "send"@ {
        match parse_flags(args, 1, true, init_acc()) {
            Some(acc) => Some(
                CliV {
                    command: (CommandsV::Send {
                        path: acc.positional,
                        code: acc.code,
                        words: acc.words,
                    }),
                    no_tui: acc.no_tui,
                    port: acc.port,
                    verbose: acc.verbose,
                },
            ),
            None => None,
        }
    } else if args[0] == "receive"@ {
        match parse_flags(args, 1, false, init_acc()) {
            Some(acc) => match acc.positional {
                Some(code) => Some(
                    CliV {
                        command: (CommandsV::Receive {
                            code,
                            output: acc.output,
                            resume: acc.resume,
                        }),
                        no_tui: acc.no_tui,
                        port: acc.port,
                        verbose: acc.verbose,
                    },
                ),
                None => None,
            },
            None => None,
        }
    } else {
        None
    }
}

/// All characters are decimal digits and there is at least one.
pub open spec fn dec_digits(s: Seq<char>) -> bool {
    s.len() > 0 && forall|i: int| 0 <= i < s.len() ==> '0' <= #[trigger] s[i] <= '9'
}

/// The value of a decimal digit string.
pub open spec fn dec_val(s: Seq<char>) -> int
    decreases s.len(),
{
    if s.len() == 0 {
        0
    } else {
        dec_val(s.drop_last()) * 10 + (s.last() as int - '0' as int)
    }
}

proof fn lemma_dec_val_nonneg(s: Seq<char>)
    requires
        forall|i: int| 0 <= i < s.len() ==> '0' <= #[trigger] s[i] <= '9',
    ensures
        dec_val(s) >= 0,
    decreases s.len(),
{
    if s.len() > 0 {
        assert(forall|i: int|
            0 <= i < s.drop_last().len() ==> '0' <= #[trigger] s.drop_last()[i] <= '9');
        lemma_dec_val_nonneg(s.drop_last());
    }
}

/// A digit string's value only grows as more digits follow.
proof fn lemma_dec_val_prefix_le(s: Seq<char>, k: int)
    requires
        forall|i: int| 0 <= i < s.len() ==> '0' <= #[trigger] s[i] <= '9',
        0 <= k <= s.len(),
    ensures
        dec_val(s.take(k)) <= dec_val(s),
    decreases s.len() - k,
{
    if k < s.len() {
        assert(s.take(k + 1).drop_last() =~= s.take(k));
        assert(s.take(k + 1).last() == s[k]);
        assert(forall|i: int|
            0 <= i < s.take(k).len() ==> '0' <= #[trigger] s.take(k)[i] <= '9');
        lemma_dec_val_nonneg(s.take(k));
        assert(dec_val(s.take(k + 1)) == dec_val(s.take(k)) * 10 + (s[k] as int - '0' as int));
        assert(dec_val(s.take(k)) * 10 >= dec_val(s.take(k))) by (nonlinear_arith)
            requires
                dec_val(s.take(k)) >= 0,
        ;
        lemma_dec_val_prefix_le(s, k + 1);
        assert(s.take(s.len() as int) =~= s);
    } else {
        assert(s.take(k) =~= s);
    }
}

/// Parses a decimal number; refuses empty or non-digit text and anything
/// above the type's range.
pub fn parse_u64(s: &str) -> (r: Option<u64>)
    ensures
        r matches Some(v) ==> (dec_digits(s@) && v as int == dec_val(s@)),
        r is None ==> (!dec_digits(s@) || dec_val(s@) > u64::MAX),
{
    let n = s.unicode_len();
    if n == 0 {
        return None;
    }
    let mut acc: u64 = 0;
    let mut i: usize = 0;
    while i < n
        invariant
            n == s@.len(),
            0 < n,
            i <= n,
            acc as int == dec_val(s@.take(i as int)),
            forall|j: int| 0 <= j < i ==> '0' <= #[trigger] s@[j] <= '9',
        decreases n - i,
    {
        let c = s.get_char(i);
        if c < '0' || c > '9' {
            return None;
        }
        let d: u64 = (c as u32 - '0' as u32) as u64;
        proof {
            assert(s@.take(i as int + 1).drop_last() =~= s@.take(i as int));
            assert(s@.take(i as int + 1).last() == s@[i as int]);
        }
        if acc > (u64::MAX - d) / 10 {
            proof {
                let t = s@.take(i as int + 1);
                assert(dec_val(t) == acc * 10 + d);
                vstd::arithmetic::div_mod::lemma_fundamental_div_mod(
                    (u64::MAX - d) as int,
                    10,
                );
                assert(acc * 10 >= ((u64::MAX - d) as int / 10 + 1) * 10) by (nonlinear_arith)
                    requires
                        acc as int >= (u64::MAX - d) as int / 10 + 1,
                ;
                assert(dec_val(t) > u64::MAX);
                assert(forall|j: int| 0 <= j < t.len() ==> '0' <= #[trigger] t[j] <= '9');
                lemma_dec_val_prefix_le_pub(s@, i as int + 1);
            }
            return None;
        }
        acc = acc * 10 + d;
        i += 1;
    }
    proof {
        assert(s@.take(n as int) =~= s@);
    }
    Some(acc)
}

/// The prefix bound, callable where only part of the text is known digits:
/// once a prefix already exceeds the range, the whole text does.
proof fn lemma_dec_val_prefix_le_pub(s: Seq<char>, k: int)
    requires
        0 <= k <= s.len(),
        forall|i: int| 0 <= i < k ==> '0' <= #[trigger] s[i] <= '9',
    ensures
        dec_digits(s) ==> dec_val(s.take(k)) <= dec_val(s),
{
    if dec_digits(s) {
        lemma_dec_val_prefix_le(s, k);
    }
}

/// Parses a port number.
pub fn parse_u16(s: &str) -> (r: Option<u16>)
    ensures
        r matches Some(v) ==> (dec_digits(s@) && v as int == dec_val(s@)),
        r is None ==> (!dec_digits(s@) || dec_val(s@) > u16::MAX),
{
    match parse_u64(s) {
        Some(v) => {
            if v <= u16::MAX as u64 {
                Some(v as u16)
            } else {
                None
            }
        },
        None => {
            proof {
                if dec_digits(s@) && dec_val(s@) <= u16::MAX {
                }
            }
            None
        },
    }
}

impl Cli {
    /// Parses the arguments that follow the program name: a `send` or
    /// `receive` subcommand, its options, and the global flags.
    pub fn parse_args(args: &Vec<String>) -> (r: Result<Cli, String>)
        ensures
            ({
                let argv = args@.map_values(|x: String| x@);
                match parse_args_spec(argv) {
                    Some(cv) => r matches Ok(c) && c@ == cv,
                    None => r is Err,
                }
            }),
    {
        let ghost argv = args@.map_values(|x: String| x@);
        let argc = args.len();
        if argc == 0 {
            return Err(String::from_str("expected a subcommand: send or receive"));
        }
        let is_send = str_eq(args[0].as_str(), "send");
        let is_recv = str_eq(args[0].as_str(), "receive");
        if !is_send && !is_recv {
            return Err(String::from_str("expected a subcommand: send or receive"));
        }
        proof {
            reveal_strlit("send");
            reveal_strlit("receive");
            assert("send"@.len() != "receive"@.len());
            assert(!(is_send && is_recv));
        }
        let mut no_tui = false;
        let mut verbose = false;
        let mut port: Option<u16> = None;
        let mut code: Option<String> = None;
        let mut output: Option<String> = None;
        let mut resume = false;
        let mut words: u64 = 3;
        let mut positional: Option<String> = None;
        let mut i: usize = 1;
        proof {
            assert((ArgsAcc {
                no_tui,
                verbose,
                port,
                code: opt_view(code),
                output: opt_view(output),
                resume,
                words,
                positional: opt_view(positional),
            }) == init_acc());
        }
        while i < argc
            invariant
                argc == args@.len(),
                argv == args@.map_values(|x: String| x@),
                is_send == (argv[0] == "send"@),
                is_recv == (argv[0] == "receive"@),
                is_send || is_recv,
                !(is_send && is_recv),
                1 <= i,
                parse_flags(argv, 1, is_send, init_acc()) == parse_flags(
                    argv,
                    i as int,
                    is_send,
                    (ArgsAcc {
                        no_tui,
                        verbose,
                        port,
                        code: opt_view(code),
                        output: opt_view(output),
                        resume,
                        words,
                        positional: opt_view(positional),
                    }),
                ),
            decreases argc - i,
        {
            let ghost acc0 = ArgsAcc {
                no_tui,
                verbose,
                port,
                code: opt_view(code),
                output: opt_view(output),
                resume,
                words,
                positional: opt_view(positional),
            };
            let a = &args[i];
            proof {
                assert(argv[i as int] == a@);
            }
            if str_eq(a.as_str(), "--no-tui") {
                no_tui = true;
                i += 1;
            } else if str_eq(a.as_str(), "-v") || str_eq(a.as_str(), "--verbose") {
                verbose = true;
                i += 1;
            } else if str_eq(a.as_str(), "-p") || str_eq(a.as_str(), "--port") {
                if i + 1 >= argc {
                    proof {
                        assert(parse_flags(argv, i as int, is_send, acc0) is None);
                    }
                    return Err(String::from_str("expected a value after the port option"));
                }
                proof {
                    assert(argv[i as int + 1] == args@[i as int + 1]@);
                }
                match parse_u16(args[i + 1].as_str()) {
                    Some(p) => {
                        port = Some(p);
                    },
                    None => {
                        proof {
                            assert(parse_flags(argv, i as int, is_send, acc0) is None);
                        }
                        return Err(String::from_str("the port must be a number below 65536"));
                    },
                }
                i += 2;
            } else if is_send && (str_eq(a.as_str(), "-c") || str_eq(a.as_str(), "--code")) {
                if i + 1 >= argc {
                    proof {
                        assert(parse_flags(argv, i as int, is_send, acc0) is None);
                    }
                    return Err(String::from_str("expected a value after the code option"));
                }
                proof {
                    assert(argv[i as int + 1] == args@[i as int + 1]@);
                }
                code = Some(args[i + 1].clone());
                i += 2;
            } else if is_send && (str_eq(a.as_str(), "-w") || str_eq(a.as_str(), "--words")) {
                if i + 1 >= argc {
                    proof {
                        assert(parse_flags(argv, i as int, is_send, acc0) is None);
                    }
                    return Err(String::from_str("expected a value after the words option"));
                }
                proof {
                    assert(argv[i as int + 1] == args@[i as int + 1]@);
                }
                match parse_u64(args[i + 1].as_str()) {
                    Some(w) => {
                        words = w;
                    },
                    None => {
                        proof {
                            assert(parse_flags(argv, i as int, is_send, acc0) is None);
                        }
                        return Err(String::from_str("the word count must be a number"));
                    },
                }
                i += 2;
            } else if is_recv && (str_eq(a.as_str(), "-o") || str_eq(a.as_str(), "--output")) {
                if i + 1 >= argc {
                    proof {
                        assert(parse_flags(argv, i as int, is_send, acc0) is None);
                    }
                    return Err(String::from_str("expected a value after the output option"));
                }
                proof {
                    assert(argv[i as int + 1] == args@[i as int + 1]@);
                }
                output = Some(args[i + 1].clone());
                i += 2;
            } else if is_recv && (str_eq(a.as_str(), "-r") || str_eq(a.as_str(), "--resume")) {
                resume = true;
                i += 1;
            } else if positional.is_none() {
                positional = Some(a.clone());
                i += 1;
            } else {
                proof {
                    assert(parse_flags(argv, i as int, is_send, acc0) is None);
                }
                return Err(String::from_str("unexpected argument"));
            }
        }
        proof {
            assert(parse_flags(
                argv,
                i as int,
                is_send,
                (ArgsAcc {
                    no_tui,
                    verbose,
                    port,
                    code: opt_view(code),
                    output: opt_view(output),
                    resume,
                    words,
                    positional: opt_view(positional),
                }),
            ) == Some(
                (ArgsAcc {
                    no_tui,
                    verbose,
                    port,
                    code: opt_view(code),
                    output: opt_view(output),
                    resume,
                    words,
                    positional: opt_view(positional),
                }),
            ));
        }
        if is_send {
            Ok(
                Cli {
                    command: Commands::Send { path: positional, code, words },
                    no_tui,
                    port,
                    verbose,
                },
            )
        } else {
            match positional {
                Some(code_arg) => Ok(
                    Cli {
                        command: Commands::Receive { code: code_arg, output, resume },
                        no_tui,
                        port,
                        verbose,
                    },
                ),
                None => Err(String::from_str("expected the transfer code")),
            }
        }
    }
}

} // verus!
