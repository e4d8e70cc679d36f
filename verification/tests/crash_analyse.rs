use crash_analyse::analyse::{compose_report, AnalyseCrash, AnalyseHot, Strategy};
use crash_analyse::cli::{parse_arguments, values_complete, NoteKind};
use crash_analyse::crash::{
    create_crash, report, AnyCrash, Crash, FrameSnapshot, ProcessSnapshot, StopReason,
    ThreadSnapshot,
};
use crash_analyse::text::{decimal_string, push_decimal};

fn frame(file: Option<&str>, function: Option<&str>, line: Option<(&str, u32)>) -> FrameSnapshot {
    FrameSnapshot {
        module_file: file.map(|s| s.to_string()),
        function_name: function.map(|s| s.to_string()),
        line_entry: line.map(|(n, l)| (n.to_string(), l)),
    }
}

fn thread(id: u32, name: &str, reason: StopReason, frames: Vec<FrameSnapshot>) -> ThreadSnapshot {
    ThreadSnapshot { index_id: id, name: name.to_string(), stop_reason: reason, frames }
}

/// A process with one crashed thread: `inner` called from `main`.
fn process_with(inner: &str, inner_line: u32) -> ProcessSnapshot {
    ProcessSnapshot {
        threads: vec![thread(
            1,
            "app",
            StopReason::Signal,
            vec![
                frame(Some("app"), Some(inner), Some(("lib.c", inner_line))),
                frame(Some("app"), Some("main"), Some(("main.c", 12))),
            ],
        )],
    }
}

fn args(list: &[&str]) -> Vec<String> {
    list.iter().map(|s| s.to_string()).collect()
}

#[test]
fn decimal_numbers() {
    assert_eq!(decimal_string(0), "0");
    assert_eq!(decimal_string(7), "7");
    assert_eq!(decimal_string(10), "10");
    assert_eq!(decimal_string(4294967295), "4294967295");
    assert_eq!(decimal_string(u64::MAX), "18446744073709551615");
    let mut s = String::from("n=");
    push_decimal(&mut s, 305);
    assert_eq!(s, "n=305");
}

#[test]
fn stop_reason_names() {
    assert_eq!(StopReason::Signal.text(), "Signal");
    assert_eq!(StopReason::NoReason.text(), "None");
    assert_eq!(StopReason::VForkDone.text(), "VForkDone");
}

#[test]
fn frame_without_module_file_is_blank() {
    let p = ProcessSnapshot {
        threads: vec![thread(
            3,
            "worker",
            StopReason::Exception,
            vec![frame(None, Some("ignored"), Some(("ignored.c", 9)))],
        )],
    };
    let c = create_crash(&Strategy::ALLEqual, &p);
    assert_eq!(c.get_threads().len(), 1);
    assert_eq!(
        c.get_threads()[0].report(),
        "thread id: 3\tname: worker\tstop reason: Exception\n\tfile name:\tfunction name: \tline: 0\n"
    );
}

#[test]
fn frame_with_missing_function_and_line() {
    let p = ProcessSnapshot {
        threads: vec![thread(2, "t", StopReason::Trace, vec![frame(Some("libc.so"), None, None)])],
    };
    let c = create_crash(&Strategy::RootEqual, &p);
    assert_eq!(
        report(&c),
        "thread id: 2\tname: t\tstop reason: Trace\n\tfile name:libc.so\tfunction name: \tline: 0\n\n"
    );
}

#[test]
fn crash_report_lists_threads_and_frames() {
    let c = create_crash(&Strategy::ALLEqual, &process_with("crash_here", 40));
    assert_eq!(
        report(&c),
        "thread id: 1\tname: app\tstop reason: Signal\n\
         \tfile name:app\tfunction name: crash_here\tline:lib.c 40\n\
         \tfile name:app\tfunction name: main\tline:main.c 12\n\n"
    );
    assert!(matches!(c, AnyCrash::All(_)));
    let r = create_crash(&Strategy::RootEqual, &process_with("crash_here", 40));
    assert!(matches!(r, AnyCrash::Root(_)));
}

#[test]
fn all_equal_needs_every_frame() {
    let a = create_crash(&Strategy::ALLEqual, &process_with("f", 1));
    let b = create_crash(&Strategy::ALLEqual, &process_with("f", 1));
    let c = create_crash(&Strategy::ALLEqual, &process_with("g", 1));
    let d = create_crash(&Strategy::ALLEqual, &process_with("f", 2));
    assert!(a.is_same(&b));
    assert!(a.is_same(&a));
    assert!(!a.is_same(&c));
    assert!(!a.is_same(&d));
    let empty = create_crash(&Strategy::ALLEqual, &ProcessSnapshot { threads: vec![] });
    assert!(!a.is_same(&empty));
    assert!(empty.is_same(&empty));
}

#[test]
fn root_equal_needs_only_outermost_frame() {
    let a = create_crash(&Strategy::RootEqual, &process_with("f", 1));
    let c = create_crash(&Strategy::RootEqual, &process_with("g", 7));
    assert!(a.is_same(&c));
    let all = create_crash(&Strategy::ALLEqual, &process_with("f", 1));
    assert!(!all.is_same(&c));
    let other_root = ProcessSnapshot {
        threads: vec![thread(
            1,
            "app",
            StopReason::Signal,
            vec![frame(Some("app"), Some("f"), Some(("lib.c", 1))), frame(Some("app"), Some("start"), Some(("crt.c", 1)))],
        )],
    };
    let d = create_crash(&Strategy::RootEqual, &other_root);
    assert!(!a.is_same(&d));
    let other_reason = ProcessSnapshot {
        threads: vec![thread(1, "app", StopReason::Breakpoint, vec![frame(Some("app"), Some("main"), Some(("main.c", 12)))])],
    };
    assert!(!a.is_same(&create_crash(&Strategy::RootEqual, &other_reason)));
}

#[test]
fn root_comparison_with_frameless_threads() {
    let frameless = ProcessSnapshot { threads: vec![thread(1, "app", StopReason::Signal, vec![])] };
    let f = create_crash(&Strategy::RootEqual, &frameless);
    let a = create_crash(&Strategy::RootEqual, &process_with("f", 1));
    // Same head, no frame on one side: not comparable.
    assert!(!a.comparable(&f));
    // Different head: the frames are never read.
    let other = ProcessSnapshot { threads: vec![thread(9, "x", StopReason::Signal, vec![])] };
    let o = create_crash(&Strategy::RootEqual, &other);
    assert!(a.comparable(&o));
    assert!(!a.is_same(&o));
    // Different numbers of threads: never read either.
    let two = ProcessSnapshot {
        threads: vec![thread(1, "app", StopReason::Signal, vec![]), thread(2, "b", StopReason::Signal, vec![])],
    };
    assert!(a.comparable(&create_crash(&Strategy::RootEqual, &two)));
    let all = create_crash(&Strategy::ALLEqual, &frameless);
    assert!(all.comparable(&f));
}

#[test]
fn store_keeps_unique_crashes() {
    let mut store = AnalyseCrash::new(Strategy::ALLEqual);
    assert_eq!(store.num_unique_crashes(), 0);
    assert!(store.add_crash("core.1".to_string(), &process_with("f", 1)));
    assert!(store.add_crash("core.2".to_string(), &process_with("f", 1)));
    assert_eq!(store.num_unique_crashes(), 1);
    assert!(store.add_crash("core.3".to_string(), &process_with("g", 1)));
    assert_eq!(store.num_unique_crashes(), 2);
    let names: Vec<&str> = store.get_unique_crashes().iter().map(|e| e.0.as_str()).collect();
    assert_eq!(names, vec!["core.1", "core.3"]);
    assert!(store.get_unique_crashes().iter().all(|e| matches!(e.1, AnyCrash::All(_))));
}

#[test]
fn store_by_root_merges_more() {
    let mut store = AnalyseCrash::new(Strategy::RootEqual);
    store.add_crash("core.1".to_string(), &process_with("f", 1));
    store.add_crash("core.2".to_string(), &process_with("g", 5));
    assert_eq!(store.num_unique_crashes(), 1);
}

#[test]
fn store_replaces_crash_under_same_name() {
    let mut store = AnalyseCrash::new(Strategy::ALLEqual);
    store.add_crash("core".to_string(), &process_with("f", 1));
    store.add_crash("other".to_string(), &process_with("h", 1));
    store.add_crash("core".to_string(), &process_with("g", 1));
    assert_eq!(store.num_unique_crashes(), 2);
    let crashes = store.get_unique_crashes();
    assert_eq!(crashes[0].0, "core");
    let g = create_crash(&Strategy::ALLEqual, &process_with("g", 1));
    assert!(crashes[0].1.is_same(&g));
    assert_eq!(crashes[1].0, "other");
}

#[test]
fn store_can_add_checks_frameless_threads() {
    let frameless = ProcessSnapshot { threads: vec![thread(1, "app", StopReason::Signal, vec![])] };
    let mut store = AnalyseCrash::new(Strategy::RootEqual);
    assert!(store.can_add(&frameless));
    store.add_crash("core.1".to_string(), &frameless);
    assert!(!store.can_add(&process_with("f", 1)));
    let mut all = AnalyseCrash::new(Strategy::ALLEqual);
    all.add_crash("core.1".to_string(), &frameless);
    assert!(all.can_add(&process_with("f", 1)));
}

#[test]
fn hot_store_keeps_each_distinct_crash() {
    let mut hot = AnalyseHot::new(Strategy::ALLEqual);
    assert_eq!(hot.num_unique_crashes(), 0);
    assert!(hot.add_crash(&process_with("f", 1)));
    assert_eq!(hot.num_unique_crashes(), 1);
    assert!(hot.add_crash(&process_with("g", 1)));
    assert_eq!(hot.num_unique_crashes(), 2);
    assert!(hot.add_crash(&process_with("f", 1)));
    assert_eq!(hot.num_unique_crashes(), 2);
    let crashes = hot.get_unique_crashes();
    assert_eq!(crashes[0].0, "Hot-0");
    assert_eq!(crashes[1].0, "Hot-1");
    let f = create_crash(&Strategy::ALLEqual, &process_with("f", 1));
    let g = create_crash(&Strategy::ALLEqual, &process_with("g", 1));
    assert!(crashes[0].1.is_same(&f));
    assert!(crashes[1].1.is_same(&g));
    assert!(hot.can_add(&process_with("h", 1)));
}

#[test]
fn hot_store_by_root_merges_more() {
    let mut hot = AnalyseHot::new(Strategy::RootEqual);
    hot.add_crash(&process_with("f", 1));
    hot.add_crash(&process_with("g", 2));
    assert_eq!(hot.num_unique_crashes(), 1);
    for k in 0..12u32 {
        let p = ProcessSnapshot {
            threads: vec![thread(k, "t", StopReason::Signal, vec![frame(Some("a"), Some("main"), None)])],
        };
        hot.add_crash(&p);
    }
    assert_eq!(hot.num_unique_crashes(), 13);
    assert!(hot.get_unique_crashes().iter().all(|e| matches!(e.1, AnyCrash::Root(_))));
    assert_eq!(hot.get_unique_crashes()[12].0, "Hot-12");
}

#[test]
fn store_report_text() {
    let mut store = AnalyseCrash::new(Strategy::ALLEqual);
    store.add_crash("core \"1\"".to_string(), &process_with("f", 3));
    let text = store.report(&"app".to_string());
    assert_eq!(
        text,
        "crashes analyse for application = app\ntotal unique crashes number: 1\n\
         coredump file: \"core \\\"1\\\"\"\n\
         thread id: 1\tname: app\tstop reason: Signal\n\
         \tfile name:app\tfunction name: f\tline:lib.c 3\n\
         \tfile name:app\tfunction name: main\tline:main.c 12\n\n"
    );
    let empty = AnalyseCrash::new(Strategy::RootEqual);
    assert_eq!(
        empty.report(&"x".to_string()),
        "crashes analyse for application = x\ntotal unique crashes number: 0\n"
    );
}

#[test]
fn hot_report_text() {
    let mut hot = AnalyseHot::new(Strategy::RootEqual);
    hot.add_crash(&ProcessSnapshot { threads: vec![] });
    assert_eq!(
        hot.report(&"a".to_string()),
        "crashes analyse for application = a\ntotal unique crashes number: 1\ncoredump file: \"Hot-0\"\n"
    );
}

#[test]
fn compose_report_uses_given_names() {
    let mut store = AnalyseCrash::new(Strategy::ALLEqual);
    store.add_crash("k".to_string(), &ProcessSnapshot { threads: vec![] });
    let quoted = vec!["<k>".to_string()];
    assert_eq!(
        compose_report(&"app".to_string(), store.get_unique_crashes(), &quoted),
        "crashes analyse for application = app\ntotal unique crashes number: 1\ncoredump file: <k>\n"
    );
}

#[test]
fn arguments_defaults() {
    let a = args(&["prog"]);
    assert!(values_complete(&a));
    let (o, notes) = parse_arguments(&a);
    assert_eq!(o.app, "");
    assert_eq!(o.directory, "");
    assert_eq!(o.corefile, "");
    assert_eq!(o.output, "output");
    assert_eq!(o.strategy, Strategy::ALLEqual);
    assert!(!o.valid);
    assert!(notes.is_empty());
}

#[test]
fn arguments_full_command_line() {
    let a = args(&["prog", "-a", "app", "-d", "cores", "-c", "core.1", "-o", "report.txt", "-s", "root"]);
    assert!(values_complete(&a));
    let (o, notes) = parse_arguments(&a);
    assert_eq!(o.app, "app");
    assert_eq!(o.directory, "cores");
    assert_eq!(o.corefile, "core.1");
    assert_eq!(o.output, "report.txt");
    assert_eq!(o.strategy, Strategy::RootEqual);
    assert!(o.valid);
    let kinds: Vec<NoteKind> = notes.iter().map(|n| n.kind).collect();
    assert_eq!(
        kinds,
        vec![NoteKind::Target, NoteKind::Directory, NoteKind::CoreFile, NoteKind::ReportFile, NoteKind::DedupStrategy]
    );
    assert_eq!(notes[4].text, "root");
}

#[test]
fn arguments_other_strategy_and_output_only() {
    let (o, _) = parse_arguments(&args(&["prog", "-s", "all", "-o", "out"]));
    assert_eq!(o.strategy, Strategy::ALLEqual);
    assert_eq!(o.output, "out");
    assert!(!o.valid);
}

#[test]
fn arguments_help_stops() {
    let (o, notes) = parse_arguments(&args(&["prog", "-a", "app", "--help", "-d", "x"]));
    assert!(!o.valid);
    assert_eq!(o.app, "app");
    assert_eq!(o.directory, "");
    assert_eq!(notes.len(), 2);
    assert_eq!(notes[1].kind, NoteKind::Help);
}

#[test]
fn arguments_unexpected_stops() {
    let (o, notes) = parse_arguments(&args(&["prog", "-a", "app", "-x", "-d", "dir"]));
    assert!(!o.valid);
    assert_eq!(o.directory, "");
    assert_eq!(notes[1].kind, NoteKind::Unexpected);
    assert_eq!(notes[1].text, "-x");
}

#[test]
fn arguments_missing_value() {
    assert!(!values_complete(&args(&["prog", "-a"])));
    assert!(!values_complete(&args(&["prog", "-o", "out", "-d"])));
    assert!(values_complete(&args(&["prog", "bogus", "-d"])));
    assert!(values_complete(&args(&["prog", "--help", "-d"])));
}
