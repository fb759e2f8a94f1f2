//! Command lines of the daemon and of the command-line client: what each
//! argument list asks for, decided before any socket is touched.
use crate::backend::same_text;
use vstd::prelude::*;

verus! {

/// Whether `s` begins with two dashes.
pub open spec fn dashed(s: Seq<char>) -> bool {
    s.len() >= 2 && s[0] == '-' && s[1] == '-'
}

/// Why a daemon command line was refused.
#[derive(Debug, Clone, PartialEq, Eq)]
pub enum DaemonArgError {
    /// A worker path flag was last, or followed by another flag.
    NeedsPath(String),
    /// An argument the daemon does not know.
    Unknown,
    /// No `--socket` value was given.
    NoSocket,
    /// Some but not all of the three worker paths were given.
    PartialWorker,
}

/// What a daemon command line asks for.
#[derive(Debug, Clone, PartialEq, Eq)]
pub enum DaemonCommand {
    /// Print the usage and stop.
    Help,
    /// Serve on `socket`; `worker` holds the interpreter, script and model of
    /// the MNIST worker, or nothing for the mock backend.
    Serve { socket: String, stdin_shutdown: bool, worker: Option<(String, String, String)> },
}

/// The options gathered so far while scanning a daemon command line.
pub struct DaemonScan {
    pub socket: Option<Seq<char>>,
    pub stdin_shutdown: bool,
    pub python: Option<Seq<char>>,
    pub script: Option<Seq<char>>,
    pub model: Option<Seq<char>>,
}

/// Why scanning stopped early: `Ok(None)` for `--help`, `Err` with the flag
/// that lacks a path (or `None` for an unknown argument).
pub open spec fn scan_daemon(args: Seq<Seq<char>>, i: int, st: DaemonScan) -> Result<
    Option<DaemonScan>,
    Option<Seq<char>>,
>
    decreases args.len() + 1 - i,
{
    if i < 0 || i >= args.len() {
        Ok(Some(st))
    } else {
        let a = args[i];
        if a == "--socket"@ {
            let v = if i + 1 < args.len() {
                Some(args[i + 1])
            } else {
                None
            };
            scan_daemon(args, i + 2, DaemonScan { socket: v, ..st })
        } else if a == "--shutdown-on-stdin"@ {
            scan_daemon(args, i + 1, DaemonScan { stdin_shutdown: true, ..st })
        } else if a == "--worker-python"@ || a == "--worker-script"@ || a == "--mnist-model"@ {
            if i + 1 >= args.len() || dashed(args[i + 1]) {
                Err(Some(a))
            } else {
                let v = Some(args[i + 1]);
                let next = if a == "--worker-python"@ {
                    DaemonScan { python: v, ..st }
                } else if a == "--worker-script"@ {
                    DaemonScan { script: v, ..st }
                } else {
                    DaemonScan { model: v, ..st }
                };
                scan_daemon(args, i + 2, next)
            }
        } else if a == "--help"@ {
            Ok(None)
        } else {
            Err(None)
        }
    }
}

/// Nothing gathered yet.
pub open spec fn no_options() -> DaemonScan {
    DaemonScan { socket: None, stdin_shutdown: false, python: None, script: None, model: None }
}

/// A refused daemon command line, by value.
pub enum DaemonFault {
    NeedsPath(Seq<char>),
    Unknown,
    NoSocket,
    PartialWorker,
}

/// The daemon command line's meaning, by value: `Ok(None)` is help;
/// `Ok(Some((socket, stdin_shutdown, worker)))` serves. Unknown arguments and
/// missing paths stop the scan where they occur; the socket and the worker
/// paths are checked once the whole line has been read.
pub open spec fn daemon_outcome(args: Seq<Seq<char>>) -> Result<
    Option<(Seq<char>, bool, Option<(Seq<char>, Seq<char>, Seq<char>)>)>,
    DaemonFault,
> {
    match scan_daemon(args, 0, no_options()) {
        Err(Some(flag)) => Err(DaemonFault::NeedsPath(flag)),
        Err(None) => Err(DaemonFault::Unknown),
        Ok(None) => Ok(None),
        Ok(Some(st)) => match st.socket {
            None => Err(DaemonFault::NoSocket),
            Some(socket) => if st.python is None && st.script is None && st.model is None {
                Ok(Some((socket, st.stdin_shutdown, None)))
            } else if st.python is Some && st.script is Some && st.model is Some {
                Ok(
                    Some(
                        (
                            socket,
                            st.stdin_shutdown,
                            Some((st.python->Some_0, st.script->Some_0, st.model->Some_0)),
                        ),
                    ),
                )
            } else {
                Err(DaemonFault::PartialWorker)
            },
        },
    }
}

/// The value of a daemon command, for comparison with `daemon_outcome`.
pub open spec fn daemon_view(r: Result<DaemonCommand, DaemonArgError>) -> Result<
    Option<(Seq<char>, bool, Option<(Seq<char>, Seq<char>, Seq<char>)>)>,
    DaemonFault,
> {
    match r {
        Ok(DaemonCommand::Help) => Ok(None),
        Ok(DaemonCommand::Serve { socket, stdin_shutdown, worker }) => Ok(
            Some(
                (
                    socket@,
                    stdin_shutdown,
                    match worker {
                        None => None,
                        Some((p, s, m)) => Some((p@, s@, m@)),
                    },
                ),
            ),
        ),
        Err(DaemonArgError::NeedsPath(f)) => Err(DaemonFault::NeedsPath(f@)),
        Err(DaemonArgError::Unknown) => Err(DaemonFault::Unknown),
        Err(DaemonArgError::NoSocket) => Err(DaemonFault::NoSocket),
        Err(DaemonArgError::PartialWorker) => Err(DaemonFault::PartialWorker),
    }
}

/// The options held by the parser's variables, by value.
pub open spec fn scan_state(
    socket: Option<String>,
    stdin_shutdown: bool,
    python: Option<String>,
    script: Option<String>,
    model: Option<String>,
) -> DaemonScan {
    DaemonScan {
        socket: opt_text(socket),
        stdin_shutdown,
        python: opt_text(python),
        script: opt_text(script),
        model: opt_text(model),
    }
}

/// The characters of an optional string.
pub open spec fn opt_text(s: Option<String>) -> Option<Seq<char>> {
    match s {
        Some(t) => Some(t@),
        None => None,
    }
}

/// Whether a string begins with two dashes.
pub fn is_dashed(s: &str) -> (r: bool)
    ensures
        r == dashed(s@),
{
    s.unicode_len() >= 2 && s.get_char(0) == '-' && s.get_char(1) == '-'
}

fn copy_text(s: &String) -> (r: String)
    ensures
        r@ == s@,
{
    s.clone()
}

/// Reads the daemon's command line (without the program name).
pub fn parse_daemon_args(args: &[String]) -> (r: Result<DaemonCommand, DaemonArgError>)
    ensures
        daemon_view(r) == daemon_outcome(args.deep_view()),
{
    let ghost view = args.deep_view();
    let mut socket: Option<String> = None;
    let mut stdin_shutdown = false;
    let mut python: Option<String> = None;
    let mut script: Option<String> = None;
    let mut model: Option<String> = None;
    let mut i: usize = 0;
    let n = args.len();
    proof {
        assert(view.len() == n);
    }
    while i < n
        invariant
            n == args@.len(),
            view == args.deep_view(),
            view.len() == n,
            0 <= i <= n,
            scan_daemon(view, 0, no_options()) == scan_daemon(
                view,
                i as int,
                scan_state(socket, stdin_shutdown, python, script, model),
            ),
        decreases n - i,
    {
        let a = args[i].as_str();
        let ghost i0 = i as int;
        let ghost st0 = scan_state(socket, stdin_shutdown, python, script, model);
        proof {
            assert(view[i as int] == args@[i as int]@);
        }
        if same_text(a, "--socket") {
            if i + 1 < n {
                proof {
                    assert(view[i + 1] == args@[i + 1]@);
                }
                socket = Some(copy_text(&args[i + 1]));
                i = i + 2;
            } else {
                socket = None;
                i = n;
                proof {
                    let ns = scan_state(socket, stdin_shutdown, python, script, model);
                    assert(ns == DaemonScan { socket: None, ..st0 });
                    assert(scan_daemon(view, i0 + 2, ns) == Ok::<Option<DaemonScan>, Option<Seq<char>>>(Some(ns)));
                    assert(scan_daemon(view, n as int, ns) == Ok::<Option<DaemonScan>, Option<Seq<char>>>(Some(ns)));
                }
            }
        } else if same_text(a, "--shutdown-on-stdin") {
            stdin_shutdown = true;
            i = i + 1;
        } else if same_text(a, "--worker-python") || same_text(a, "--worker-script") || same_text(
            a,
            "--mnist-model",
        ) {
            if i + 1 >= n {
                return Err(DaemonArgError::NeedsPath(copy_text(&args[i])));
            }
            proof {
                assert(view[i + 1] == args@[i + 1]@);
            }
            if is_dashed(args[i + 1].as_str()) {
                return Err(DaemonArgError::NeedsPath(copy_text(&args[i])));
            }
            let v = copy_text(&args[i + 1]);
            if same_text(a, "--worker-python") {
                python = Some(v);
            } else if same_text(a, "--worker-script") {
                script = Some(v);
            } else {
                model = Some(v);
            }
            i = i + 2;
        } else if same_text(a, "--help") {
            return Ok(DaemonCommand::Help);
        } else {
            return Err(DaemonArgError::Unknown);
        }
        proof {
            assert(scan_daemon(view, i0, st0) == scan_daemon(
                view,
                i as int,
                scan_state(socket, stdin_shutdown, python, script, model),
            ));
        }
    }
    let socket = match socket {
        None => {
            return Err(DaemonArgError::NoSocket);
        },
        Some(s) => s,
    };
    match (python, script, model) {
        (None, None, None) => Ok(DaemonCommand::Serve { socket, stdin_shutdown, worker: None }),
        (Some(p), Some(s), Some(m)) => Ok(
            DaemonCommand::Serve { socket, stdin_shutdown, worker: Some((p, s, m)) },
        ),
        _ => Err(DaemonArgError::PartialWorker),
    }
}

/// Whether `c` is an ASCII decimal digit.
pub open spec fn is_digit(c: char) -> bool {
    '0' <= c && c <= '9'
}

/// The number written by the decimal digits `d`.
pub open spec fn decimal(d: Seq<char>) -> int
    decreases d.len(),
{
    if d.len() == 0 {
        0
    } else {
        decimal(d.drop_last()) * 10 + (d.last() as int - '0' as int)
    }
}

/// One field of a byte list: an optional `+`, then one or more decimal
/// digits whose value is at most 255.
pub open spec fn byte_field(f: Seq<char>) -> Option<u8> {
    let d = unsigned_part(f);
    if d.len() == 0 || !all_digits(d) || decimal(d) > 255 {
        None
    } else {
        Some(decimal(d) as u8)
    }
}

/// A field without its optional leading `+`.
pub open spec fn unsigned_part(f: Seq<char>) -> Seq<char> {
    if f.len() > 0 && f[0] == '+' {
        f.drop_first()
    } else {
        f
    }
}

/// Whether every character of `d` is a decimal digit.
pub open spec fn all_digits(d: Seq<char>) -> bool {
    forall|i: int| 0 <= i < d.len() ==> is_digit(#[trigger] d[i])
}

/// Splits `s` at commas from position `i` on, with `field` read so far and
/// `acc` the bytes of the fields before it; `None` if any field is not a byte.
pub open spec fn list_from(s: Seq<char>, i: int, field: Seq<char>, acc: Seq<u8>) -> Option<Seq<u8>>
    decreases s.len() - i,
{
    if i < 0 || i >= s.len() {
        match byte_field(field) {
            Some(v) => Some(acc.push(v)),
            None => None,
        }
    } else if s[i] == ',' {
        match byte_field(field) {
            Some(v) => list_from(s, i + 1, Seq::empty(), acc.push(v)),
            None => None,
        }
    } else {
        list_from(s, i + 1, field.push(s[i]), acc)
    }
}

/// The bytes of a comma-separated list such as `0,1,254,255`.
pub open spec fn byte_list(s: Seq<char>) -> Option<Seq<u8>> {
    list_from(s, 0, Seq::empty(), Seq::empty())
}

proof fn lemma_capped_step(x: int, d: int)
    requires
        x >= 0,
        0 <= d <= 9,
    ensures
        (if x < 256 { x } else { 256 }) * 10 + d >= 256 <==> x * 10 + d >= 256,
        x < 256 ==> (if x < 256 { x } else { 256 }) * 10 + d == x * 10 + d,
{
}

proof fn lemma_decimal_nonneg(d: Seq<char>)
    requires
        forall|i: int| 0 <= i < d.len() ==> is_digit(#[trigger] d[i]),
    ensures
        decimal(d) >= 0,
    decreases d.len(),
{
    if d.len() > 0 {
        assert(is_digit(d[d.len() - 1]));
        lemma_decimal_nonneg(d.drop_last());
    }
}

/// Reads one field of a byte list.
pub fn parse_byte_field(f: &Vec<char>) -> (r: Option<u8>)
    ensures
        r == byte_field(f@),
{
    let ghost fv = f@;
    let n = f.len();
    let mut start: usize = 0;
    if n > 0 && f[0] == '+' {
        start = 1;
    }
    let ghost d = unsigned_part(fv);
    if start == n {
        return None;
    }
    let mut value: u32 = 0;
    let mut i: usize = start;
    while i < n
        invariant
            fv == f@,
            n == fv.len(),
            start <= i <= n,
            start == fv.len() - d.len(),
            d == fv.subrange(start as int, n as int),
            d == unsigned_part(fv),
            d.len() > 0,
            forall|k: int| 0 <= k < i - start ==> is_digit(#[trigger] d[k]),
            value as int == (if decimal(d.subrange(0, i - start)) < 256 {
                decimal(d.subrange(0, i - start))
            } else {
                256
            }),
        decreases n - i,
    {
        let c = f[i];
        if c < '0' || c > '9' {
            proof {
                assert(d[i - start] == c);
                assert(!is_digit(d[i - start]));
                assert(!all_digits(d));
            }
            return None;
        }
        let ghost before = d.subrange(0, i - start);
        let ghost after = d.subrange(0, i + 1 - start);
        proof {
            assert(after.drop_last() =~= before);
            assert(after.last() == c);
            assert forall|k: int| 0 <= k < before.len() implies is_digit(#[trigger] before[k]) by {
                assert(before[k] == d[k]);
            }
            lemma_decimal_nonneg(before);
            lemma_capped_step(decimal(before), c as int - '0' as int);
        }
        let digit = (c as u32) - ('0' as u32);
        if value >= 256 {
            value = 256;
        } else {
            let next = value * 10 + digit;
            value = if next < 256 {
                next
            } else {
                256
            };
        }
        i = i + 1;
    }
    proof {
        assert(d.subrange(0, n - start) =~= d);
    }
    if value > 255 {
        None
    } else {
        Some(value as u8)
    }
}

/// Reads a comma-separated byte list.
pub fn parse_byte_list(s: &str) -> (r: Option<Vec<u8>>)
    ensures
        match r {
            Some(v) => byte_list(s@) == Some(v@),
            None => byte_list(s@) is None,
        },
{
    let n = s.unicode_len();
    let mut field: Vec<char> = Vec::new();
    let mut acc: Vec<u8> = Vec::new();
    let mut i: usize = 0;
    while i < n
        invariant
            n == s@.len(),
            0 <= i <= n,
            byte_list(s@) == list_from(s@, i as int, field@, acc@),
        decreases n - i,
    {
        let c = s.get_char(i);
        if c == ',' {
            match parse_byte_field(&field) {
                Some(v) => {
                    acc.push(v);
                    field = Vec::new();
                    proof {
                        assert(field@ =~= Seq::<char>::empty());
                    }
                },
                None => {
                    return None;
                },
            }
        } else {
            field.push(c);
        }
        i = i + 1;
    }
    match parse_byte_field(&field) {
        Some(v) => {
            acc.push(v);
            Some(acc)
        },
        None => None,
    }
}

/// Why a client command line was refused.
#[derive(Debug, Clone, Copy, PartialEq, Eq)]
pub enum CliError {
    /// The line does not match any form of the usage.
    Usage,
    /// A demo byte list holds something other than bytes.
    BadByte,
}

/// What a client command line asks for, once connected to `--socket`.
#[derive(Debug, Clone, PartialEq, Eq)]
pub enum CliCommand {
    /// Run one image file through the MNIST model.
    Digit { path: String },
    /// Compare transports.
    Bench,
    /// Print the session's counters.
    Stats,
    /// Run the bytes through the mock model.
    Demo { data: Vec<u8> },
}

/// The demo's bytes when none are given.
pub open spec fn default_demo() -> Seq<char> {
    "0,1,254,255"@
}

/// The first reading of a client command line: `Ok(None)` asks for help,
/// `Ok(Some(socket))` names the daemon to connect to.
pub open spec fn cli_socket_outcome(args: Seq<Seq<char>>) -> Result<Option<Seq<char>>, CliError> {
    if args.len() == 1 && args[0] == "--help"@ {
        Ok(None)
    } else if args.len() < 3 || args[0] != "--socket"@ {
        Err(CliError::Usage)
    } else {
        Ok(Some(args[1]))
    }
}

/// A client command, by value.
pub enum CliView {
    Digit(Seq<char>),
    Bench,
    Stats,
    Demo(Seq<u8>),
}

/// The command a client command line asks for once connected.
pub open spec fn cli_command_outcome(args: Seq<Seq<char>>) -> Result<CliView, CliError> {
    if args.len() < 3 {
        Err(CliError::Usage)
    } else {
        let cmd = args[2];
        if cmd == "digit"@ && args.len() == 4 {
            Ok(CliView::Digit(args[3]))
        } else if cmd == "transport-bench"@ && args.len() == 3 {
            Ok(CliView::Bench)
        } else if cmd == "stats"@ && args.len() == 3 {
            Ok(CliView::Stats)
        } else if cmd == "demo"@ && args.len() <= 4 {
            match byte_list(
                if args.len() == 4 {
                    args[3]
                } else {
                    default_demo()
                },
            ) {
                Some(d) => Ok(CliView::Demo(d)),
                None => Err(CliError::BadByte),
            }
        } else {
            Err(CliError::Usage)
        }
    }
}

/// Reads the first part of a client command line.
pub fn cli_socket(args: &[String]) -> (r: Result<Option<String>, CliError>)
    ensures
        match r {
            Ok(Some(s)) => cli_socket_outcome(args.deep_view()) == Ok::<
                Option<Seq<char>>,
                CliError,
            >(Some(s@)),
            Ok(None) => cli_socket_outcome(args.deep_view()) == Ok::<Option<Seq<char>>, CliError>(
                None,
            ),
            Err(e) => cli_socket_outcome(args.deep_view()) == Err::<Option<Seq<char>>, CliError>(
                e,
            ),
        },
{
    let ghost view = args.deep_view();
    let n = args.len();
    if n >= 1 {
        proof {
            assert(view[0] == args@[0]@);
        }
    }
    if n == 1 && same_text(args[0].as_str(), "--help") {
        return Ok(None);
    }
    if n < 3 || !same_text(args[0].as_str(), "--socket") {
        return Err(CliError::Usage);
    }
    proof {
        assert(view[1] == args@[1]@);
    }
    Ok(Some(copy_text(&args[1])))
}

/// Reads the command of a client command line.
pub fn cli_command(args: &[String]) -> (r: Result<CliCommand, CliError>)
    ensures
        match r {
            Ok(CliCommand::Digit { path }) => cli_command_outcome(args.deep_view()) == Ok::<
                CliView,
                CliError,
            >(CliView::Digit(path@)),
            Ok(CliCommand::Bench) => cli_command_outcome(args.deep_view()) == Ok::<
                CliView,
                CliError,
            >(CliView::Bench),
            Ok(CliCommand::Stats) => cli_command_outcome(args.deep_view()) == Ok::<
                CliView,
                CliError,
            >(CliView::Stats),
            Ok(CliCommand::Demo { data }) => cli_command_outcome(args.deep_view()) == Ok::<
                CliView,
                CliError,
            >(CliView::Demo(data@)),
            Err(e) => cli_command_outcome(args.deep_view()) == Err::<CliView, CliError>(e),
        },
{
    let ghost view = args.deep_view();
    let n = args.len();
    if n < 3 {
        return Err(CliError::Usage);
    }
    proof {
        assert(view[2] == args@[2]@);
    }
    let cmd = args[2].as_str();
    if same_text(cmd, "digit") && n == 4 {
        proof {
            assert(view[3] == args@[3]@);
        }
        return Ok(CliCommand::Digit { path: copy_text(&args[3]) });
    }
    if same_text(cmd, "transport-bench") && n == 3 {
        return Ok(CliCommand::Bench);
    }
    if same_text(cmd, "stats") && n == 3 {
        return Ok(CliCommand::Stats);
    }
    if same_text(cmd, "demo") && n <= 4 {
        let list = if n == 4 {
            proof {
                assert(view[3] == args@[3]@);
            }
            args[3].as_str()
        } else {
            "0,1,254,255"
        };
        return match parse_byte_list(list) {
            Some(data) => Ok(CliCommand::Demo { data }),
            None => Err(CliError::BadByte),
        };
    }
    Err(CliError::Usage)
}

/// Whether the MNIST output buffer holds one digit.
pub fn digit_result_ok(out: &[u8]) -> (r: bool)
    ensures
        r == (out@.len() == 1 && out@[0] <= 9),
{
    out.len() == 1 && out[0] <= 9
}

} // verus!
