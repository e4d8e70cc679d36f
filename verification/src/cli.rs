//! The command line: which application, core files, report file and
//! strategy to use.

use vstd::prelude::*;

use crate::analyse::Strategy;

verus! {

/// What an argument was read as; each is announced to the user.
#[derive(Clone, Copy, Debug, PartialEq, Eq, Structural)]
pub enum NoteKind {
    /// `--help`: the help text is shown and nothing is analysed.
    Help,
    /// `-a`: the application.
    Target,
    /// `-d`: the directory of core files.
    Directory,
    /// `-c`: one core file.
    CoreFile,
    /// `-o`: the report file.
    ReportFile,
    /// `-s`: the strategy.
    DedupStrategy,
    /// An argument that is not an option; nothing is analysed.
    Unexpected,
}

/// An argument as read, with the text it names.
pub struct ArgNote {
    pub kind: NoteKind,
    pub text: String,
}

/// The settings that the command line gives.
pub struct Options {
    /// The application whose crashes are analysed.
    pub app: String,
    /// The directory of core files.
    pub directory: String,
    /// A single core file.
    pub corefile: String,
    /// The report file.
    pub output: String,
    /// How duplicates are found.
    pub strategy: Strategy,
    /// Whether the analysis runs.
    pub valid: bool,
}

/// The value of the settings.
#[verifier::ext_equal]
pub struct OptionsView {
    pub app: Seq<char>,
    pub directory: Seq<char>,
    pub corefile: Seq<char>,
    pub output: Seq<char>,
    pub strategy: Strategy,
    pub valid: bool,
}

/// The value of a settings record.
pub open spec fn options_view(o: Options) -> OptionsView {
    OptionsView {
        app: o.app@,
        directory: o.directory@,
        corefile: o.corefile@,
        output: o.output@,
        strategy: o.strategy,
        valid: o.valid,
    }
}

/// The values of notes.
pub open spec fn notes_view(s: Seq<ArgNote>) -> Seq<(NoteKind, Seq<char>)> {
    s.map_values(|n: ArgNote| (n.kind, n.text@))
}

/// The values of the arguments.
pub open spec fn args_view(s: Seq<String>) -> Seq<Seq<char>> {
    s.map_values(|a: String| a@)
}

/// The settings before any argument is read: no application, directory or
/// core file, the report file `output`, strategy `ALLEqual`, not to run.
pub open spec fn initial_options() -> OptionsView {
    OptionsView {
        app: Seq::empty(),
        directory: Seq::empty(),
        corefile: Seq::empty(),
        output: "output"@,
        strategy: Strategy::ALLEqual,
        valid: false,
    }
}

/// The options that take a value: the argument after them.
pub open spec fn takes_value(a: Seq<char>) -> bool {
    a == "-a"@ || a == "-d"@ || a == "-c"@ || a == "-o"@ || a == "-s"@
}

/// Reading from position `i`, every option that takes a value has one.
pub open spec fn values_present(args: Seq<Seq<char>>, i: nat) -> bool
    decreases args.len() - i,
{
    if i >= args.len() {
        true
    } else if takes_value(args[i as int]) {
        i + 1 < args.len() && values_present(args, i + 2)
    } else {
        true
    }
}

/// Reads the arguments from position `i` on, options and their values in
/// pairs, into the settings `o` and the notes `notes`. `--help` and an
/// argument that is not an option stop the reading and turn the run off;
/// `-a`, `-d` and `-c` turn it on; `-s root` picks `RootEqual` and any other
/// value of `-s` picks `ALLEqual`.
pub open spec fn parse_from(
    args: Seq<Seq<char>>,
    i: nat,
    o: OptionsView,
    notes: Seq<(NoteKind, Seq<char>)>,
) -> (OptionsView, Seq<(NoteKind, Seq<char>)>)
    decreases args.len() - i,
{
    if i >= args.len() {
        (o, notes)
    } else if args[i as int] == "--help"@ {
        (OptionsView { valid: false, ..o }, notes.push((NoteKind::Help, Seq::empty())))
    } else if takes_value(args[i as int]) && i + 1 >= args.len() {
        (o, notes)
    } else if args[i as int] == "-a"@ {
        parse_from(
            args,
            i + 2,
            OptionsView { app: args[i + 1 as int], valid: true, ..o },
            notes.push((NoteKind::Target, args[i + 1 as int])),
        )
    } else if args[i as int] == "-d"@ {
        parse_from(
            args,
            i + 2,
            OptionsView { directory: args[i + 1 as int], valid: true, ..o },
            notes.push((NoteKind::Directory, args[i + 1 as int])),
        )
    } else if args[i as int] == "-c"@ {
        parse_from(
            args,
            i + 2,
            OptionsView { corefile: args[i + 1 as int], valid: true, ..o },
            notes.push((NoteKind::CoreFile, args[i + 1 as int])),
        )
    } else if args[i as int] == "-o"@ {
        parse_from(
            args,
            i + 2,
            OptionsView { output: args[i + 1 as int], ..o },
            notes.push((NoteKind::ReportFile, args[i + 1 as int])),
        )
    } else if args[i as int] == "-s"@ {
        parse_from(
            args,
            i + 2,
            OptionsView {
                strategy: if args[i + 1 as int] == "root"@ {
                    Strategy::RootEqual
                } else {
                    Strategy::ALLEqual
                },
                ..o
            },
            notes.push((NoteKind::DedupStrategy, args[i + 1 as int])),
        )
    } else {
        (OptionsView { valid: false, ..o }, notes.push((NoteKind::Unexpected, args[i as int])))
    }
}

/// Whether an argument is the given literal.
fn is_arg(a: &String, lit: &str) -> (r: bool)
    ensures
        r == (a@ == lit@),
{
    *a == String::from_str(lit)
}

/// Whether every option on the command line that takes a value has one
/// (the program name at position 0 is skipped).
pub fn values_complete(arguments: &Vec<String>) -> (r: bool)
    ensures
        r == values_present(args_view(arguments@), 1),
{
    let ghost args = args_view(arguments@);
    let n = arguments.len();
    let mut i: usize = 1;
    while i < n
        invariant
            n == arguments.len(),
            args == args_view(arguments@),
            1 <= i,
            values_present(args, i as nat) == values_present(args, 1),
        decreases n - i,
    {
        let a = &arguments[i];
        let takes = is_arg(a, "-a") || is_arg(a, "-d") || is_arg(a, "-c") || is_arg(a, "-o")
            || is_arg(a, "-s");
        assert(args[i as int] == a@);
        if !takes {
            return true;
        }
        if i + 1 >= n {
            return false;
        }
        i = i + 2;
    }
    true
}

/// Reads the command line (the program name at position 0 is skipped) into
/// settings, with a note for each argument read.
pub fn parse_arguments(arguments: &Vec<String>) -> (r: (Options, Vec<ArgNote>))
    requires
        values_present(args_view(arguments@), 1),
    ensures
        (options_view(r.0), notes_view(r.1@)) == parse_from(
            args_view(arguments@),
            1,
            initial_options(),
            Seq::empty(),
        ),
{
    let ghost args = args_view(arguments@);
    let ghost goal = parse_from(args, 1, initial_options(), Seq::empty());
    let mut o = Options {
        app: String::new(),
        directory: String::new(),
        corefile: String::new(),
        output: String::from_str("output"),
        strategy: Strategy::ALLEqual,
        valid: false,
    };
    let mut notes: Vec<ArgNote> = Vec::new();
    assert(options_view(o) =~= initial_options());
    assert(notes_view(notes@) =~= Seq::<(NoteKind, Seq<char>)>::empty());
    let n = arguments.len();
    let mut i: usize = 1;
    while i < n
        invariant
            n == arguments.len(),
            args == args_view(arguments@),
            1 <= i,
            values_present(args, i as nat),
            parse_from(args, i as nat, options_view(o), notes_view(notes@)) == goal,
            goal == parse_from(args, 1, initial_options(), Seq::empty()),
        decreases n - i,
    {
        let ghost ov = options_view(o);
        let ghost nv = notes_view(notes@);
        let a = &arguments[i];
        assert(args[i as int] == a@);
        if is_arg(a, "--help") {
            o.valid = false;
            notes.push(ArgNote { kind: NoteKind::Help, text: String::new() });
            assert(options_view(o) =~= OptionsView { valid: false, ..ov });
            assert(notes_view(notes@) =~= nv.push((NoteKind::Help, Seq::empty())));
            return (o, notes);
        } else if is_arg(a, "-a") {
            assert(args[i + 1] == arguments@[i + 1]@);
            o.app = arguments[i + 1].clone();
            o.valid = true;
            notes.push(ArgNote { kind: NoteKind::Target, text: arguments[i + 1].clone() });
            assert(options_view(o) =~= OptionsView { app: args[i + 1 as int], valid: true, ..ov });
            assert(notes_view(notes@) =~= nv.push((NoteKind::Target, args[i + 1 as int])));
        } else if is_arg(a, "-d") {
            assert(args[i + 1] == arguments@[i + 1]@);
            o.directory = arguments[i + 1].clone();
            o.valid = true;
            notes.push(ArgNote { kind: NoteKind::Directory, text: arguments[i + 1].clone() });
            assert(options_view(o) =~= OptionsView { directory: args[i + 1 as int], valid: true, ..ov });
            assert(notes_view(notes@) =~= nv.push((NoteKind::Directory, args[i + 1 as int])));
        } else if is_arg(a, "-c") {
            assert(args[i + 1] == arguments@[i + 1]@);
            o.corefile = arguments[i + 1].clone();
            o.valid = true;
            notes.push(ArgNote { kind: NoteKind::CoreFile, text: arguments[i + 1].clone() });
            assert(options_view(o) =~= OptionsView { corefile: args[i + 1 as int], valid: true, ..ov });
            assert(notes_view(notes@) =~= nv.push((NoteKind::CoreFile, args[i + 1 as int])));
        } else if is_arg(a, "-o") {
            assert(args[i + 1] == arguments@[i + 1]@);
            o.output = arguments[i + 1].clone();
            notes.push(ArgNote { kind: NoteKind::ReportFile, text: arguments[i + 1].clone() });
            assert(options_view(o) =~= OptionsView { output: args[i + 1 as int], ..ov });
            assert(notes_view(notes@) =~= nv.push((NoteKind::ReportFile, args[i + 1 as int])));
        } else if is_arg(a, "-s") {
            assert(args[i + 1] == arguments@[i + 1]@);
            if is_arg(&arguments[i + 1], "root") {
                o.strategy = Strategy::RootEqual;
            } else {
                o.strategy = Strategy::ALLEqual;
            }
            notes.push(ArgNote { kind: NoteKind::DedupStrategy, text: arguments[i + 1].clone() });
            assert(options_view(o) =~= OptionsView {
                strategy: if args[i + 1 as int] == "root"@ {
                    Strategy::RootEqual
                } else {
                    Strategy::ALLEqual
                },
                ..ov
            });
            assert(notes_view(notes@) =~= nv.push((NoteKind::DedupStrategy, args[i + 1 as int])));
        } else {
            o.valid = false;
            notes.push(ArgNote { kind: NoteKind::Unexpected, text: a.clone() });
            assert(options_view(o) =~= OptionsView { valid: false, ..ov });
            assert(notes_view(notes@) =~= nv.push((NoteKind::Unexpected, args[i as int])));
            return (o, notes);
        }
        i = i + 2;
    }
    (o, notes)
}

/// The option names are different from one another.
proof fn lemma_option_names_distinct()
    ensures
        "--help"@ != "-a"@,
        "--help"@ != "-d"@,
        "--help"@ != "-c"@,
        "--help"@ != "-o"@,
        "--help"@ != "-s"@,
        "-s"@ != "-a"@,
        "-s"@ != "-d"@,
        "-s"@ != "-c"@,
        "-s"@ != "-o"@,
        "-a"@ != "-d"@,
        "-a"@ != "-c"@,
        "-a"@ != "-o"@,
        "-d"@ != "-c"@,
        "-d"@ != "-o"@,
        "-c"@ != "-o"@,
{
    reveal_strlit("--help");
    reveal_strlit("-a");
    reveal_strlit("-d");
    reveal_strlit("-c");
    reveal_strlit("-o");
    reveal_strlit("-s");
    assert("--help"@.len() == 6);
    assert("-a"@[1] == 'a');
    assert("-d"@[1] == 'd');
    assert("-c"@[1] == 'c');
    assert("-o"@[1] == 'o');
    assert("-s"@[1] == 's');
}

/// Where no `-s` is left to read, the strategy stays what it was: no other
/// option, nor `--help`, nor an unexpected argument, changes it.
pub proof fn lemma_strategy_kept(
    args: Seq<Seq<char>>,
    i: nat,
    o: OptionsView,
    notes: Seq<(NoteKind, Seq<char>)>,
)
    requires
        forall|j: int| i <= j < args.len() ==> args[j] != "-s"@,
    ensures
        parse_from(args, i, o, notes).0.strategy == o.strategy,
    decreases args.len() - i,
{
    if i < args.len() && args[i as int] != "--help"@ && !(takes_value(args[i as int]) && i + 1
        >= args.len()) {
        if args[i as int] == "-a"@ {
            lemma_strategy_kept(
                args,
                i + 2,
                OptionsView { app: args[i + 1 as int], valid: true, ..o },
                notes.push((NoteKind::Target, args[i + 1 as int])),
            );
        } else if args[i as int] == "-d"@ {
            lemma_strategy_kept(
                args,
                i + 2,
                OptionsView { directory: args[i + 1 as int], valid: true, ..o },
                notes.push((NoteKind::Directory, args[i + 1 as int])),
            );
        } else if args[i as int] == "-c"@ {
            lemma_strategy_kept(
                args,
                i + 2,
                OptionsView { corefile: args[i + 1 as int], valid: true, ..o },
                notes.push((NoteKind::CoreFile, args[i + 1 as int])),
            );
        } else if args[i as int] == "-o"@ {
            lemma_strategy_kept(
                args,
                i + 2,
                OptionsView { output: args[i + 1 as int], ..o },
                notes.push((NoteKind::ReportFile, args[i + 1 as int])),
            );
        }
    }
}

/// `-s` with a value, with no `-s` after it, decides the strategy whatever
/// was read before: `RootEqual` for the value `root`, `ALLEqual` for any
/// other value.
pub proof fn lemma_last_strategy_wins(
    args: Seq<Seq<char>>,
    i: nat,
    o: OptionsView,
    notes: Seq<(NoteKind, Seq<char>)>,
)
    requires
        i + 1 < args.len(),
        args[i as int] == "-s"@,
        forall|j: int| i + 2 <= j < args.len() ==> args[j] != "-s"@,
    ensures
        parse_from(args, i, o, notes).0.strategy == (if args[i + 1 as int] == "root"@ {
            Strategy::RootEqual
        } else {
            Strategy::ALLEqual
        }),
{
    lemma_option_names_distinct();
    let s = if args[i + 1 as int] == "root"@ {
        Strategy::RootEqual
    } else {
        Strategy::ALLEqual
    };
    lemma_strategy_kept(
        args,
        i + 2,
        OptionsView { strategy: s, ..o },
        notes.push((NoteKind::DedupStrategy, args[i + 1 as int])),
    );
}

/// Each option that takes a value sets its own setting to that value,
/// whatever was read before, unless the same option comes again later.
pub proof fn lemma_option_value_kept(
    args: Seq<Seq<char>>,
    i: nat,
    o: OptionsView,
    notes: Seq<(NoteKind, Seq<char>)>,
)
    requires
        i + 1 < args.len(),
        takes_value(args[i as int]),
        args[i as int] != "-s"@,
        forall|j: int| i + 2 <= j < args.len() ==> args[j] != args[i as int],
        forall|j: int| i + 2 <= j < args.len() ==> args[j] != "--help"@,
    ensures
        args[i as int] == "-a"@ ==> parse_from(args, i, o, notes).0.app == args[i + 1 as int],
        args[i as int] == "-d"@ ==> parse_from(args, i, o, notes).0.directory == args[i + 1 as int],
        args[i as int] == "-c"@ ==> parse_from(args, i, o, notes).0.corefile == args[i + 1 as int],
        args[i as int] == "-o"@ ==> parse_from(args, i, o, notes).0.output == args[i + 1 as int],
{
    lemma_option_names_distinct();
    if args[i as int] == "-a"@ {
        lemma_field_kept(args, i + 2, OptionsView { app: args[i + 1 as int], valid: true, ..o },
            notes.push((NoteKind::Target, args[i + 1 as int])), args[i as int]);
    } else if args[i as int] == "-d"@ {
        lemma_field_kept(args, i + 2, OptionsView { directory: args[i + 1 as int], valid: true, ..o },
            notes.push((NoteKind::Directory, args[i + 1 as int])), args[i as int]);
    } else if args[i as int] == "-c"@ {
        lemma_field_kept(args, i + 2, OptionsView { corefile: args[i + 1 as int], valid: true, ..o },
            notes.push((NoteKind::CoreFile, args[i + 1 as int])), args[i as int]);
    } else {
        lemma_field_kept(args, i + 2, OptionsView { output: args[i + 1 as int], ..o },
            notes.push((NoteKind::ReportFile, args[i + 1 as int])), args[i as int]);
    }
}

/// Where the option `opt` is not left to read, the setting it sets stays
/// what it was.
proof fn lemma_field_kept(
    args: Seq<Seq<char>>,
    i: nat,
    o: OptionsView,
    notes: Seq<(NoteKind, Seq<char>)>,
    opt: Seq<char>,
)
    requires
        forall|j: int| i <= j < args.len() ==> args[j] != opt,
    ensures
        opt == "-a"@ ==> parse_from(args, i, o, notes).0.app == o.app,
        opt == "-d"@ ==> parse_from(args, i, o, notes).0.directory == o.directory,
        opt == "-c"@ ==> parse_from(args, i, o, notes).0.corefile == o.corefile,
        opt == "-o"@ ==> parse_from(args, i, o, notes).0.output == o.output,
    decreases args.len() - i,
{
    if i < args.len() && args[i as int] != "--help"@ && !(takes_value(args[i as int]) && i + 1
        >= args.len()) {
        if args[i as int] == "-a"@ {
            lemma_field_kept(args, i + 2, OptionsView { app: args[i + 1 as int], valid: true, ..o },
                notes.push((NoteKind::Target, args[i + 1 as int])), opt);
        } else if args[i as int] == "-d"@ {
            lemma_field_kept(args, i + 2, OptionsView { directory: args[i + 1 as int], valid: true, ..o },
                notes.push((NoteKind::Directory, args[i + 1 as int])), opt);
        } else if args[i as int] == "-c"@ {
            lemma_field_kept(args, i + 2, OptionsView { corefile: args[i + 1 as int], valid: true, ..o },
                notes.push((NoteKind::CoreFile, args[i + 1 as int])), opt);
        } else if args[i as int] == "-o"@ {
            lemma_field_kept(args, i + 2, OptionsView { output: args[i + 1 as int], ..o },
                notes.push((NoteKind::ReportFile, args[i + 1 as int])), opt);
        } else if args[i as int] == "-s"@ {
            lemma_field_kept(args, i + 2, OptionsView {
                strategy: if args[i + 1 as int] == "root"@ {
                    Strategy::RootEqual
                } else {
                    Strategy::ALLEqual
                },
                ..o
            }, notes.push((NoteKind::DedupStrategy, args[i + 1 as int])), opt);
        }
    }
}

} // verus!
