use vstd::prelude::*;
use crate::text::chars_of;

verus! {

pub const MAJOR: u8 = 0;

pub const MINOR: u8 = 0;

pub const PATCH: u8 = 1;

/// What the compiler was asked to do.
#[derive(Debug)]
pub struct CliConfig {
    pub input_file: String,
    pub output_file: Option<String>,
    pub wrap_tag: Option<String>,
    pub dry_run: bool,
}

/// Why the command line was refused. Each error that names an argument
/// holds its index.
#[derive(Debug, Clone, Copy, PartialEq, Eq, Structural)]
pub enum CliError {
    /// Fewer than one argument after the program name.
    NoInputProvided,
    /// `-o` or `--output-file` is the last argument.
    MissingOutputValue,
    /// `-w` or `--wrap` is the last argument.
    MissingWrapValue,
    /// An argument that starts with `-` and is no known flag.
    UnknownFlag(usize),
    /// No argument names an input file.
    NoInputSpecified,
    /// The input file does not end in `.tim`.
    NotTimFile(usize),
}

/// What the command line asks for.
#[derive(Debug)]
pub enum CliAction {
    Run(CliConfig),
    Help,
    Version,
    Fail(CliError),
}

#[verifier::ext_equal]
pub struct SpecCliConfig {
    pub input_file: Seq<char>,
    pub output_file: Option<Seq<char>>,
    pub wrap_tag: Option<Seq<char>>,
    pub dry_run: bool,
}

pub enum SpecCliAction {
    Run(SpecCliConfig),
    Help,
    Version,
    Fail(CliError),
}

pub open spec fn opt_view(o: Option<String>) -> Option<Seq<char>> {
    match o {
        Some(s) => Some(s@),
        None => None,
    }
}

impl View for CliConfig {
    type V = SpecCliConfig;

    open spec fn view(&self) -> SpecCliConfig {
        SpecCliConfig {
            input_file: self.input_file@,
            output_file: opt_view(self.output_file),
            wrap_tag: opt_view(self.wrap_tag),
            dry_run: self.dry_run,
        }
    }
}

impl View for CliAction {
    type V = SpecCliAction;

    open spec fn view(&self) -> SpecCliAction {
        match self {
            CliAction::Run(c) => SpecCliAction::Run(c@),
            CliAction::Help => SpecCliAction::Help,
            CliAction::Version => SpecCliAction::Version,
            CliAction::Fail(e) => SpecCliAction::Fail(*e),
        }
    }
}

/// The flags and input file read so far, as indices of arguments.
pub struct ArgScan {
    pub input: Option<int>,
    pub output: Option<int>,
    pub wrap: Option<int>,
    pub dry_run: bool,
}

/// Reads the arguments from `i` on: `-o`/`--output-file` and `-w`/`--wrap`
/// take the next argument as their value, `--dry-run` is a switch, an
/// argument that does not start with `-` is the input file (the last one
/// wins), and any other argument is an unknown flag.
pub open spec fn scan_args(args: Seq<Seq<char>>, i: int, st: ArgScan) -> Result<ArgScan, CliError>
    decreases args.len() - i,
{
    if i < 0 || i >= args.len() {
        Ok(st)
    } else {
        let a = args[i];
        if a == "-o"@ || a == "--output-file"@ {
            if i + 1 < args.len() {
                scan_args(args, i + 2, ArgScan { output: Some(i + 1), ..st })
            } else {
                Err(CliError::MissingOutputValue)
            }
        } else if a == "-w"@ || a == "--wrap"@ {
            if i + 1 < args.len() {
                scan_args(args, i + 2, ArgScan { wrap: Some(i + 1), ..st })
            } else {
                Err(CliError::MissingWrapValue)
            }
        } else if a == "--dry-run"@ {
            scan_args(args, i + 1, ArgScan { dry_run: true, ..st })
        } else if !(a.len() > 0 && a[0] == '-') {
            scan_args(args, i + 1, ArgScan { input: Some(i), ..st })
        } else {
            Err(CliError::UnknownFlag(i as usize))
        }
    }
}

pub open spec fn ends_with_tim(p: Seq<char>) -> bool {
    p.len() >= 4 && p.skip(p.len() - 4) == ".tim"@
}

/// What the arguments (the program name first) ask for. Help and version
/// requests win over everything else. Without `--dry-run` and without an
/// output file, the output file is the input file with `.tim` replaced by
/// `.html`; with `--dry-run` there is none.
pub open spec fn spec_cli(args: Seq<Seq<char>>) -> SpecCliAction {
    if args.contains("-h"@) || args.contains("--help"@) {
        SpecCliAction::Help
    } else if args.contains("--version"@) {
        SpecCliAction::Version
    } else if args.len() < 2 {
        SpecCliAction::Fail(CliError::NoInputProvided)
    } else {
        finish_cli(
            args,
            scan_args(args, 1, ArgScan { input: None, output: None, wrap: None, dry_run: false }),
        )
    }
}

/// The outcome of a command line after its flags were read.
pub open spec fn finish_cli(args: Seq<Seq<char>>, scanned: Result<ArgScan, CliError>) -> SpecCliAction {
    match scanned {
        Err(e) => SpecCliAction::Fail(e),
        Ok(st) => match st.input {
            None => SpecCliAction::Fail(CliError::NoInputSpecified),
            Some(k) => {
                let path = args[k];
                if !ends_with_tim(path) {
                    SpecCliAction::Fail(CliError::NotTimFile(k as usize))
                } else {
                    SpecCliAction::Run(
                        SpecCliConfig {
                            input_file: path,
                            output_file: if st.dry_run {
                                None
                            } else {
                                match st.output {
                                    Some(o) => Some(args[o]),
                                    None => Some(path.take(path.len() - 4) + ".html"@),
                                }
                            },
                            wrap_tag: match st.wrap {
                                Some(w) => Some(args[w]),
                                None => None,
                            },
                            dry_run: st.dry_run,
                        },
                    )
                }
            },
        },
    }
}

pub open spec fn args_view(args: Seq<String>) -> Seq<Seq<char>> {
    Seq::new(args.len(), |i: int| args[i]@)
}

/// Whether `a` is the text `lit`.
fn is_text(a: &String, lit: &str) -> (r: bool)
    ensures
        r == (a@ == lit@),
{
    let x = chars_of(a.as_str());
    let y = chars_of(lit);
    if x.len() != y.len() {
        return false;
    }
    let n = x.len();
    for k in 0..n
        invariant
            n == x@.len(),
            n == y@.len(),
            x@ == a@,
            y@ == lit@,
            forall|j: int| 0 <= j < k ==> x@[j] == y@[j],
    {
        if x[k] != y[k] {
            assert(x@[k as int] != y@[k as int]);
            return false;
        }
    }
    assert(x@ =~= y@);
    true
}

/// Whether some argument is the text `lit`.
fn has_arg(args: &Vec<String>, lit: &str) -> (r: bool)
    ensures
        r == args_view(args@).contains(lit@),
{
    let n = args.len();
    for k in 0..n
        invariant
            n == args@.len(),
            forall|j: int| 0 <= j < k ==> args@[j]@ != lit@,
    {
        if is_text(&args[k], lit) {
            assert(args_view(args@)[k as int] == lit@);
            return true;
        }
    }
    proof {
        if args_view(args@).contains(lit@) {
            let j = choose|j: int| 0 <= j < args_view(args@).len() && args_view(args@)[j] == lit@;
            assert(args@[j]@ == lit@);
        }
    }
    false
}

impl CliConfig {
    /// What the command line `args` (the program name first) asks for.
    pub fn parse(args: &Vec<String>) -> (r: CliAction)
        ensures
            r@ == spec_cli(args_view(args@)),
    {
        let ghost av = args_view(args@);
        if has_arg(args, "-h") || has_arg(args, "--help") {
            return CliAction::Help;
        }
        if has_arg(args, "--version") {
            return CliAction::Version;
        }
        let n = args.len();
        if n < 2 {
            return CliAction::Fail(CliError::NoInputProvided);
        }
        let mut input: Option<usize> = None;
        let mut output: Option<usize> = None;
        let mut wrap: Option<usize> = None;
        let mut dry_run = false;
        let ghost init = ArgScan { input: None, output: None, wrap: None, dry_run: false };
        let mut i: usize = 1;
        while i < n
            invariant
                n == args@.len(),
                n >= 2,
                av == args_view(args@),
                init == (ArgScan { input: None, output: None, wrap: None, dry_run: false }),
                !(av.contains("-h"@) || av.contains("--help"@)),
                !av.contains("--version"@),
                1 <= i <= n,
                input matches Some(k) ==> k < n,
                output matches Some(k) ==> k < n,
                wrap matches Some(k) ==> k < n,
                scan_args(av, 1, init) == scan_args(
                    av,
                    i as int,
                    ArgScan {
                        input: match input {
                            Some(k) => Some(k as int),
                            None => None,
                        },
                        output: match output {
                            Some(k) => Some(k as int),
                            None => None,
                        },
                        wrap: match wrap {
                            Some(k) => Some(k as int),
                            None => None,
                        },
                        dry_run,
                    },
                ),
            decreases n - i,
        {
            let a = &args[i];
            assert(av[i as int] == a@);
            if is_text(a, "-o") || is_text(a, "--output-file") {
                if n - i > 1 {
                    output = Some(i + 1);
                    i = i + 2;
                } else {
                    return CliAction::Fail(CliError::MissingOutputValue);
                }
            } else if is_text(a, "-w") || is_text(a, "--wrap") {
                if n - i > 1 {
                    wrap = Some(i + 1);
                    i = i + 2;
                } else {
                    return CliAction::Fail(CliError::MissingWrapValue);
                }
            } else if is_text(a, "--dry-run") {
                dry_run = true;
                i = i + 1;
            } else {
                let cs = chars_of(a.as_str());
                if !(cs.len() > 0 && cs[0] == '-') {
                    input = Some(i);
                    i = i + 1;
                } else {
                    return CliAction::Fail(CliError::UnknownFlag(i));
                }
            }
        }
        let k = match input {
            None => {
                return CliAction::Fail(CliError::NoInputSpecified);
            },
            Some(k) => k,
        };
        let path = &args[k];
        assert(av[k as int] == path@);
        let pcs = chars_of(path.as_str());
        let pn = pcs.len();
        let tim = chars_of(".tim");
        proof {
            reveal_strlit(".tim");
        }
        let is_tim = pn >= 4 && pcs[pn - 4] == tim[0] && pcs[pn - 3] == tim[1] && pcs[pn - 2]
            == tim[2] && pcs[pn - 1] == tim[3];
        if pn >= 4 {
            if is_tim {
                assert(pcs@.skip(pn - 4) =~= ".tim"@);
            } else {
                assert(pcs@.skip(pn - 4) != ".tim"@) by {
                    if pcs@.skip(pn - 4) == ".tim"@ {
                        assert(pcs@.skip(pn - 4)[0] == pcs@[pn - 4]);
                        assert(pcs@.skip(pn - 4)[1] == pcs@[pn - 3]);
                        assert(pcs@.skip(pn - 4)[2] == pcs@[pn - 2]);
                        assert(pcs@.skip(pn - 4)[3] == pcs@[pn - 1]);
                    }
                }
            }
        }
        if !is_tim {
            return CliAction::Fail(CliError::NotTimFile(k));
        }
        let output_file = if dry_run {
            None
        } else {
            match output {
                Some(o) => Some(args[o].clone()),
                None => {
                    let mut base = String::new();
                    let stem = pn - 4;
                    for j in 0..stem
                        invariant
                            stem <= pcs@.len(),
                            base@ == pcs@.take(j as int),
                    {
                        crate::text::push_char(&mut base, pcs[j]);
                        assert(pcs@.take(j + 1) == pcs@.take(j as int).push(pcs@[j as int]));
                    }
                    base.append(".html");
                    Some(base)
                },
            }
        };
        let wrap_tag = match wrap {
            Some(w) => Some(args[w].clone()),
            None => None,
        };
        CliAction::Run(CliConfig { input_file: path.clone(), output_file, wrap_tag, dry_run })
    }
}


/// The flag indices that a scan has recorded lie before `n`.
pub open spec fn scan_within(st: ArgScan, n: int) -> bool {
    &&& (st.input matches Some(k) ==> 0 <= k < n)
    &&& (st.output matches Some(k) ==> 0 <= k < n)
    &&& (st.wrap matches Some(k) ==> 0 <= k < n)
}

/// Scanning a command line with more arguments after it reads it as
/// before, then goes on with the rest.
proof fn lemma_scan_append(args: Seq<Seq<char>>, tail: Seq<Seq<char>>, i: int, st: ArgScan)
    requires
        0 <= i <= args.len(),
        scan_within(st, args.len() as int),
        scan_args(args, i, st) is Ok,
    ensures
        scan_within(scan_args(args, i, st)->Ok_0, args.len() as int),
        scan_args(args + tail, i, st) == scan_args(
            args + tail,
            args.len() as int,
            scan_args(args, i, st)->Ok_0,
        ),
    decreases args.len() - i,
{
    if i < args.len() {
        let a = args[i];
        assert((args + tail)[i] == a);
        if a == "-o"@ || a == "--output-file"@ {
            lemma_scan_append(args, tail, i + 2, ArgScan { output: Some(i + 1), ..st });
        } else if a == "-w"@ || a == "--wrap"@ {
            lemma_scan_append(args, tail, i + 2, ArgScan { wrap: Some(i + 1), ..st });
        } else if a == "--dry-run"@ {
            lemma_scan_append(args, tail, i + 1, ArgScan { dry_run: true, ..st });
        } else if !(a.len() > 0 && a[0] == '-') {
            lemma_scan_append(args, tail, i + 1, ArgScan { input: Some(i), ..st });
        }
    }
}

/// Adding two flag arguments keeps a help, version or failure request out
/// of the command line and reads them after everything else.
proof fn lemma_append_flag(args: Seq<Seq<char>>, flag: Seq<char>, x: Seq<char>)
    requires
        spec_cli(args) is Run,
        flag == "-w"@ || flag == "--wrap"@ || flag == "-o"@ || flag == "--output-file"@,
        x != "-h"@ && x != "--help"@ && x != "--version"@,
    ensures
        ({
            let all = args + seq![flag, x];
            let st0 = ArgScan { input: None, output: None, wrap: None, dry_run: false };
            let st1 = scan_args(args, 1, st0)->Ok_0;
            &&& scan_args(args, 1, st0) is Ok
            &&& scan_within(st1, args.len() as int)
            &&& spec_cli(all) == finish_cli(all, scan_args(all, args.len() as int, st1))
            &&& forall|k: int| 0 <= k < args.len() ==> #[trigger] all[k] == args[k]
            &&& all[args.len() as int] == flag
            &&& all[args.len() + 1int] == x
        }),
{
    reveal_strlit("-w");
    reveal_strlit("--wrap");
    reveal_strlit("-o");
    reveal_strlit("--output-file");
    reveal_strlit("-h");
    reveal_strlit("--help");
    reveal_strlit("--version");
    reveal_strlit("--dry-run");
    let tail = seq![flag, x];
    let all = args + tail;
    let st0 = ArgScan { input: None, output: None, wrap: None, dry_run: false };
    assert(!args.contains("-h"@) && !args.contains("--help"@) && !args.contains("--version"@));
    assert(!all.contains("-h"@)) by {
        if all.contains("-h"@) {
            let k = choose|k: int| 0 <= k < all.len() && all[k] == "-h"@;
            if k < args.len() {
                assert(args[k] == all[k]);
            } else {
                assert(all[k] == tail[k - args.len()]);
                assert(all[k][1] != 'h' || all[k].len() != 2);
            }
        }
    }
    assert(!all.contains("--help"@)) by {
        if all.contains("--help"@) {
            let k = choose|k: int| 0 <= k < all.len() && all[k] == "--help"@;
            if k < args.len() {
                assert(args[k] == all[k]);
            } else {
                assert(all[k] == tail[k - args.len()]);
                assert(all[k].len() != 6 || all[k][2] != 'h');
            }
        }
    }
    assert(!all.contains("--version"@)) by {
        if all.contains("--version"@) {
            let k = choose|k: int| 0 <= k < all.len() && all[k] == "--version"@;
            if k < args.len() {
                assert(args[k] == all[k]);
            } else {
                assert(all[k] == tail[k - args.len()]);
                assert(all[k].len() != 9 || all[k][2] != 'v');
            }
        }
    }
    lemma_scan_append(args, tail, 1, st0);
}

/// The argument after `-w` or `--wrap` is that flag's value and nothing
/// else: added after a command line that runs, the flag and its value make
/// the value the wrap tag and leave the input file, the output file and the
/// dry-run switch as they were.
pub proof fn law_wrap_flag_takes_next(args: Seq<Seq<char>>, flag: Seq<char>, x: Seq<char>)
    requires
        spec_cli(args) is Run,
        flag == "-w"@ || flag == "--wrap"@,
        x != "-h"@ && x != "--help"@ && x != "--version"@,
    ensures
        spec_cli(args + seq![flag, x]) matches SpecCliAction::Run(c) && c.wrap_tag == Some(x)
            && c.input_file == spec_cli(args)->Run_0.input_file && c.output_file == spec_cli(
            args,
        )->Run_0.output_file && c.dry_run == spec_cli(args)->Run_0.dry_run,
{
    reveal_strlit("-w");
    reveal_strlit("--wrap");
    reveal_strlit("-o");
    reveal_strlit("--output-file");
    lemma_append_flag(args, flag, x);
    let all = args + seq![flag, x];
    let n = args.len() as int;
    let st0 = ArgScan { input: None, output: None, wrap: None, dry_run: false };
    let st1 = scan_args(args, 1, st0)->Ok_0;
    assert(spec_cli(args) == finish_cli(args, Ok(st1)));
    let st2 = ArgScan { wrap: Some(n + 1), ..st1 };
    assert(scan_args(all, n + 2, st2) == Ok::<ArgScan, CliError>(st2));
    assert(all[n] == flag);
    assert(all[n] != "-o"@) by {
        assert(all[n].len() != 2 || all[n][1] != "-o"@[1]);
    }
    assert(all[n] != "--output-file"@) by {
        assert(all[n].len() != "--output-file"@.len());
    }
    assert(scan_args(all, n, st1) == Ok::<ArgScan, CliError>(st2));
    let k = st1.input->Some_0;
    assert(all[k] == args[k]);
    if let Some(o) = st1.output {
        assert(all[o] == args[o]);
    }
}

/// The argument after `-o` or `--output-file` is that flag's value and
/// nothing else: added after a command line that runs, the flag and its
/// value make the value the output file (none on a dry run) and leave the
/// input file, the wrap tag and the dry-run switch as they were.
pub proof fn law_output_flag_takes_next(args: Seq<Seq<char>>, flag: Seq<char>, x: Seq<char>)
    requires
        spec_cli(args) is Run,
        flag == "-o"@ || flag == "--output-file"@,
        x != "-h"@ && x != "--help"@ && x != "--version"@,
    ensures
        spec_cli(args + seq![flag, x]) matches SpecCliAction::Run(c) && c.output_file == (if c.dry_run {
            None
        } else {
            Some(x)
        }) && c.input_file == spec_cli(args)->Run_0.input_file && c.wrap_tag == spec_cli(
            args,
        )->Run_0.wrap_tag && c.dry_run == spec_cli(args)->Run_0.dry_run,
{
    reveal_strlit("-w");
    reveal_strlit("--wrap");
    reveal_strlit("-o");
    reveal_strlit("--output-file");
    lemma_append_flag(args, flag, x);
    let all = args + seq![flag, x];
    let n = args.len() as int;
    let st0 = ArgScan { input: None, output: None, wrap: None, dry_run: false };
    let st1 = scan_args(args, 1, st0)->Ok_0;
    assert(spec_cli(args) == finish_cli(args, Ok(st1)));
    let st2 = ArgScan { output: Some(n + 1), ..st1 };
    assert(scan_args(all, n + 2, st2) == Ok::<ArgScan, CliError>(st2));
    assert(all[n] == flag);
    assert(all[n] == "-o"@ || all[n] == "--output-file"@);
    assert(n + 1 < all.len());
    assert(scan_args(all, n, st1) == Ok::<ArgScan, CliError>(st2));
    let k = st1.input->Some_0;
    assert(all[k] == args[k]);
    if let Some(w) = st1.wrap {
        assert(all[w] == args[w]);
    }
}

} // verus!
