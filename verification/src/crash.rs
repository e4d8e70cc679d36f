//! Crashes: the threads of a crashed process, each with its stack of frames,
//! and the two ways of deciding whether two crashes are duplicates.

use vstd::prelude::*;

use crate::analyse::Strategy;
use crate::text::{decimal, push_decimal};

verus! {

/// Why a thread stopped, as the debugger reports it.
#[derive(Clone, Copy, Debug, PartialEq, Eq, Structural)]
pub enum StopReason {
    Invalid,
    /// Written `None` in reports.
    NoReason,
    Trace,
    Breakpoint,
    Watchpoint,
    Signal,
    Exception,
    Exec,
    PlanComplete,
    ThreadExiting,
    Instrumentation,
    ProcessorTrace,
    Fork,
    VFork,
    VForkDone,
}

/// The name under which a stop reason is written in a report.
pub open spec fn stop_reason_text(r: StopReason) -> Seq<char> {
    match r {
        StopReason::Invalid => "Invalid"@,
        StopReason::NoReason => "None"@,
        StopReason::Trace => "Trace"@,
        StopReason::Breakpoint => "Breakpoint"@,
        StopReason::Watchpoint => "Watchpoint"@,
        StopReason::Signal => "Signal"@,
        StopReason::Exception => "Exception"@,
        StopReason::Exec => "Exec"@,
        StopReason::PlanComplete => "PlanComplete"@,
        StopReason::ThreadExiting => "ThreadExiting"@,
        StopReason::Instrumentation => "Instrumentation"@,
        StopReason::ProcessorTrace => "ProcessorTrace"@,
        StopReason::Fork => "Fork"@,
        StopReason::VFork => "VFork"@,
        StopReason::VForkDone => "VForkDone"@,
    }
}

impl StopReason {
    /// The name of the stop reason, as written in a report.
    pub fn text(&self) -> (r: &'static str)
        ensures
            r@ == stop_reason_text(*self),
    {
        match self {
            StopReason::Invalid => "Invalid",
            StopReason::NoReason => "None",
            StopReason::Trace => "Trace",
            StopReason::Breakpoint => "Breakpoint",
            StopReason::Watchpoint => "Watchpoint",
            StopReason::Signal => "Signal",
            StopReason::Exception => "Exception",
            StopReason::Exec => "Exec",
            StopReason::PlanComplete => "PlanComplete",
            StopReason::ThreadExiting => "ThreadExiting",
            StopReason::Instrumentation => "Instrumentation",
            StopReason::ProcessorTrace => "ProcessorTrace",
            StopReason::Fork => "Fork",
            StopReason::VFork => "VFork",
            StopReason::VForkDone => "VForkDone",
        }
    }
}

// ---------------------------------------------------------------------------
// What the debugger tells about a process, as plain values.
// ---------------------------------------------------------------------------

/// One stack frame as read from the debugger.
pub struct FrameSnapshot {
    /// The file name of the frame's module, present when that file exists.
    pub module_file: Option<String>,
    /// The name of the frame's function, where the debugger knows it.
    pub function_name: Option<String>,
    /// The source file name and line of the frame's address, where known.
    pub line_entry: Option<(String, u32)>,
}

/// One thread as read from the debugger, its frames innermost first.
pub struct ThreadSnapshot {
    pub index_id: u32,
    pub name: String,
    pub stop_reason: StopReason,
    pub frames: Vec<FrameSnapshot>,
}

/// A crashed process as read from the debugger.
pub struct ProcessSnapshot {
    pub threads: Vec<ThreadSnapshot>,
}

// ---------------------------------------------------------------------------
// The model of a crash.
// ---------------------------------------------------------------------------

/// The value of a frame.
#[verifier::ext_equal]
pub struct FrameView {
    pub file_name: Seq<char>,
    pub function_name: Seq<char>,
    pub line_name: Seq<char>,
    pub line_num: u32,
}

/// The value of a thread.
#[verifier::ext_equal]
pub struct ThreadView {
    pub index_id: u32,
    pub name: Seq<char>,
    pub stop_reason: StopReason,
    pub frames: Seq<FrameView>,
}

/// The frame that a snapshot of a frame gives: names and line are kept only
/// where the module's file exists, and are empty (line 0) otherwise.
pub open spec fn frame_of(f: FrameSnapshot) -> FrameView {
    match f.module_file {
        None => FrameView {
            file_name: Seq::empty(),
            function_name: Seq::empty(),
            line_name: Seq::empty(),
            line_num: 0,
        },
        Some(file) => FrameView {
            file_name: file@,
            function_name: match f.function_name {
                Some(n) => n@,
                None => Seq::empty(),
            },
            line_name: match f.line_entry {
                Some(l) => l.0@,
                None => Seq::empty(),
            },
            line_num: match f.line_entry {
                Some(l) => l.1,
                None => 0,
            },
        },
    }
}

/// The thread that a snapshot of a thread gives.
pub open spec fn thread_of(t: ThreadSnapshot) -> ThreadView {
    ThreadView {
        index_id: t.index_id,
        name: t.name@,
        stop_reason: t.stop_reason,
        frames: t.frames@.map_values(|f: FrameSnapshot| frame_of(f)),
    }
}

/// The threads that a snapshot of a process gives.
pub open spec fn threads_of(p: ProcessSnapshot) -> Seq<ThreadView> {
    p.threads@.map_values(|t: ThreadSnapshot| thread_of(t))
}

/// A stack frame of a crashed thread.
pub struct Myframe {
    file_name: String,
    function_name: String,
    line_name: String,
    line_num: u32,
}

impl View for Myframe {
    type V = FrameView;

    closed spec fn view(&self) -> FrameView {
        FrameView {
            file_name: self.file_name@,
            function_name: self.function_name@,
            line_name: self.line_name@,
            line_num: self.line_num,
        }
    }
}

/// A thread of a crashed process with its frames, innermost first.
pub struct Mythread {
    index_id: u32,
    name: String,
    stop_reason: StopReason,
    frames: Vec<Myframe>,
}

/// The values of a sequence of frames.
pub open spec fn frames_view(s: Seq<Myframe>) -> Seq<FrameView> {
    s.map_values(|f: Myframe| f@)
}

impl View for Mythread {
    type V = ThreadView;

    closed spec fn view(&self) -> ThreadView {
        ThreadView {
            index_id: self.index_id,
            name: self.name@,
            stop_reason: self.stop_reason,
            frames: frames_view(self.frames@),
        }
    }
}

/// The values of a sequence of threads.
pub open spec fn threads_view(s: Seq<Mythread>) -> Seq<ThreadView> {
    s.map_values(|t: Mythread| t@)
}

// ---------------------------------------------------------------------------
// When two crashes are the same.
// ---------------------------------------------------------------------------

/// Two threads agree on id, name and stop reason.
pub open spec fn same_head(a: ThreadView, b: ThreadView) -> bool {
    &&& a.index_id == b.index_id
    &&& a.name == b.name
    &&& a.stop_reason == b.stop_reason
}

/// Two threads agree on id, name, stop reason and outermost (root) frame.
pub open spec fn same_root_thread(a: ThreadView, b: ThreadView) -> bool {
    same_head(a, b) && a.frames.last() == b.frames.last()
}

/// Under `ALLEqual` two crashes are the same when their threads, with all
/// their frames, are equal.
pub open spec fn all_equal(a: Seq<ThreadView>, b: Seq<ThreadView>) -> bool {
    a == b
}

/// Under `RootEqual` two crashes are the same when they have as many threads
/// and the threads at each position agree on id, name, stop reason and the
/// outermost frame.
pub open spec fn root_equal(a: Seq<ThreadView>, b: Seq<ThreadView>) -> bool {
    &&& a.len() == b.len()
    &&& forall|i: int| 0 <= i < a.len() ==> #[trigger] same_root_thread(a[i], b[i])
}

/// The comparison under `RootEqual` reads the outermost frame of the threads
/// at a position once all earlier positions agreed and the heads at that
/// position agree; it is defined when those threads have a frame.
pub open spec fn root_comparable(a: Seq<ThreadView>, b: Seq<ThreadView>) -> bool {
    a.len() == b.len() ==> forall|i: int|
        #![trigger a[i], b[i]]
        0 <= i < a.len() && (forall|j: int| 0 <= j < i ==> #[trigger] same_root_thread(a[j], b[j]))
            && same_head(a[i], b[i]) ==> a[i].frames.len() > 0 && b[i].frames.len() > 0
}

/// Whether two crashes are the same under a strategy.
pub open spec fn same_under(s: Strategy, a: Seq<ThreadView>, b: Seq<ThreadView>) -> bool {
    match s {
        Strategy::ALLEqual => all_equal(a, b),
        Strategy::RootEqual => root_equal(a, b),
    }
}

/// Whether comparing two crashes under a strategy is defined.
pub open spec fn comparable_under(s: Strategy, a: Seq<ThreadView>, b: Seq<ThreadView>) -> bool {
    match s {
        Strategy::ALLEqual => true,
        Strategy::RootEqual => root_comparable(a, b),
    }
}

/// A crash: the threads of a crashed process, and how it is compared.
pub trait Crash {
    /// The threads of the crash.
    spec fn thread_views(&self) -> Seq<ThreadView>;

    /// Whether the crash is the same as one with the threads `other`.
    spec fn same_as(&self, other: Seq<ThreadView>) -> bool;

    /// Whether comparing the crash with one with the threads `other` is
    /// defined.
    spec fn comparable_with(&self, other: Seq<ThreadView>) -> bool;

    /// Whether `crash_` is a duplicate of this crash.
    fn is_same(&self, crash_: &AnyCrash) -> (r: bool)
        requires
            self.comparable_with(crash_.threads()),
        ensures
            r == self.same_as(crash_.threads()),
    ;

    /// The threads of the crash.
    fn get_threads(&self) -> (r: &Vec<Mythread>)
        ensures
            threads_view(r@) == self.thread_views(),
    ;
}

/// A crash that is the same as another when all threads and all their
/// frames are equal.
pub struct CrashAll {
    threads: Vec<Mythread>,
}

/// A crash that is the same as another when the threads agree on id, name,
/// stop reason and outermost frame.
pub struct CrashRoot {
    threads: Vec<Mythread>,
}

/// Two frames are equal, field by field.
fn same_frame(a: &Myframe, b: &Myframe) -> (r: bool)
    ensures
        r == (a@ == b@),
{
    let r = a.file_name == b.file_name && a.function_name == b.function_name && a.line_name
        == b.line_name && a.line_num == b.line_num;
    proof {
        if r {
            assert(a@ =~= b@);
        }
    }
    r
}

/// Two threads agree on id, name and stop reason.
fn same_thread_head(a: &Mythread, b: &Mythread) -> (r: bool)
    ensures
        r == same_head(a@, b@),
{
    a.index_id == b.index_id && a.name == b.name && a.stop_reason == b.stop_reason
}

impl CrashAll {
    /// The threads of the crash.
    pub closed spec fn threads(&self) -> Seq<ThreadView> {
        threads_view(self.threads@)
    }
}

impl CrashRoot {
    /// The threads of the crash.
    pub closed spec fn threads(&self) -> Seq<ThreadView> {
        threads_view(self.threads@)
    }
}

impl Crash for CrashAll {
    open spec fn thread_views(&self) -> Seq<ThreadView> {
        self.threads()
    }

    open spec fn same_as(&self, other: Seq<ThreadView>) -> bool {
        all_equal(self.threads(), other)
    }

    open spec fn comparable_with(&self, other: Seq<ThreadView>) -> bool {
        comparable_under(Strategy::ALLEqual, self.threads(), other)
    }

    fn get_threads(&self) -> (r: &Vec<Mythread>) {
        &self.threads
    }

    fn is_same(&self, crash_: &AnyCrash) -> (r: bool) {
        let _threads = &self.threads;
        let threads_ = crash_.get_threads();
        let ghost a = threads_view(_threads@);
        let ghost b = threads_view(threads_@);
        if _threads.len() != threads_.len() {
            assert(a.len() != b.len());
            return false;
        }
        let threads_len = _threads.len();
        for i in 0..threads_len
            invariant
                threads_len == _threads.len(),
                threads_len == threads_.len(),
                a == threads_view(_threads@),
                b == threads_view(threads_@),
                b == crash_.threads(),
                a == self.threads(),
                forall|k: int| 0 <= k < i ==> a[k] == b[k],
        {
            if !same_thread_head(&_threads[i], &threads_[i]) {
                assert(a[i as int] != b[i as int]);
                return false;
            }
            let i_frames = &_threads[i].frames;
            let frames_i = &threads_[i].frames;
            let ghost fa = frames_view(i_frames@);
            let ghost fb = frames_view(frames_i@);
            assert(fa == a[i as int].frames);
            assert(fb == b[i as int].frames);
            if i_frames.len() != frames_i.len() {
                assert(a[i as int].frames.len() != b[i as int].frames.len());
                return false;
            }
            let frames_len = i_frames.len();
            for j in 0..frames_len
                invariant
                    frames_len == i_frames.len(),
                    frames_len == frames_i.len(),
                    fa == frames_view(i_frames@),
                    fb == frames_view(frames_i@),
                    fa == a[i as int].frames,
                    fb == b[i as int].frames,
                    0 <= i < a.len(),
                    a.len() == b.len(),
                    b == crash_.threads(),
                    a == self.threads(),
                    forall|m: int| 0 <= m < j ==> fa[m] == fb[m],
            {
                if !same_frame(&i_frames[j], &frames_i[j]) {
                    assert(fa[j as int] != fb[j as int]);
                    return false;
                }
            }
            assert(fa =~= fb);
            assert(a[i as int] =~= b[i as int]);
        }
        assert(a =~= b);
        true
    }
}

impl Crash for CrashRoot {
    open spec fn thread_views(&self) -> Seq<ThreadView> {
        self.threads()
    }

    open spec fn same_as(&self, other: Seq<ThreadView>) -> bool {
        root_equal(self.threads(), other)
    }

    open spec fn comparable_with(&self, other: Seq<ThreadView>) -> bool {
        comparable_under(Strategy::RootEqual, self.threads(), other)
    }

    fn get_threads(&self) -> (r: &Vec<Mythread>) {
        &self.threads
    }

    fn is_same(&self, crash_: &AnyCrash) -> (r: bool) {
        let _threads = &self.threads;
        let threads_ = crash_.get_threads();
        let ghost a = threads_view(_threads@);
        let ghost b = threads_view(threads_@);
        if _threads.len() != threads_.len() {
            return false;
        }
        let len = _threads.len();
        for i in 0..len
            invariant
                len == _threads.len(),
                len == threads_.len(),
                a == threads_view(_threads@),
                b == threads_view(threads_@),
                b == crash_.threads(),
                a == self.threads(),
                root_comparable(a, b),
                forall|k: int| 0 <= k < i ==> #[trigger] same_root_thread(a[k], b[k]),
        {
            if !same_thread_head(&_threads[i], &threads_[i]) {
                assert(!same_root_thread(a[i as int], b[i as int]));
                return false;
            }
            let i_frames = &_threads[i].frames;
            let frames_i = &threads_[i].frames;
            assert(frames_view(i_frames@) == a[i as int].frames);
            assert(frames_view(frames_i@) == b[i as int].frames);
            assert(a[i as int].frames.len() > 0 && b[i as int].frames.len() > 0);
            let _index = i_frames.len() - 1;
            let index_ = frames_i.len() - 1;
            if !same_frame(&i_frames[_index], &frames_i[index_]) {
                assert(!same_root_thread(a[i as int], b[i as int]));
                return false;
            }
        }
        true
    }
}

/// A crash compared under one of the two strategies.
pub enum AnyCrash {
    All(CrashAll),
    Root(CrashRoot),
}

impl AnyCrash {
    /// The strategy under which the crash is compared.
    pub open spec fn strategy(&self) -> Strategy {
        match self {
            AnyCrash::All(_) => Strategy::ALLEqual,
            AnyCrash::Root(_) => Strategy::RootEqual,
        }
    }

    /// The threads of the crash.
    pub open spec fn threads(&self) -> Seq<ThreadView> {
        match self {
            AnyCrash::All(c) => c.threads(),
            AnyCrash::Root(c) => c.threads(),
        }
    }
}

impl Crash for AnyCrash {
    open spec fn thread_views(&self) -> Seq<ThreadView> {
        self.threads()
    }

    open spec fn same_as(&self, other: Seq<ThreadView>) -> bool {
        same_under(self.strategy(), self.threads(), other)
    }

    open spec fn comparable_with(&self, other: Seq<ThreadView>) -> bool {
        comparable_under(self.strategy(), self.threads(), other)
    }

    fn get_threads(&self) -> (r: &Vec<Mythread>) {
        match self {
            AnyCrash::All(c) => c.get_threads(),
            AnyCrash::Root(c) => c.get_threads(),
        }
    }

    fn is_same(&self, crash_: &AnyCrash) -> (r: bool) {
        match self {
            AnyCrash::All(c) => c.is_same(crash_),
            AnyCrash::Root(c) => c.is_same(crash_),
        }
    }
}


// ---------------------------------------------------------------------------
// Building a crash from what the debugger read.
// ---------------------------------------------------------------------------

/// The frame of a frame snapshot.
fn frame_from(f: &FrameSnapshot) -> (r: Myframe)
    ensures
        r@ == frame_of(*f),
{
    let mut file_name = String::new();
    let mut function_name = String::new();
    let mut line_name = String::new();
    let mut line_num: u32 = 0;
    if let Some(file) = &f.module_file {
        file_name = file.clone();
        if let Some(function) = &f.function_name {
            function_name = function.clone();
        }
        if let Some(line) = &f.line_entry {
            line_name = line.0.clone();
            line_num = line.1;
        }
    }
    let frame_ = Myframe { file_name, function_name, line_name, line_num };
    assert(frame_@ =~= frame_of(*f));
    frame_
}

/// The thread of a thread snapshot.
fn thread_from(t: &ThreadSnapshot) -> (r: Mythread)
    ensures
        r@ == thread_of(*t),
{
    let mut frames: Vec<Myframe> = Vec::new();
    let n = t.frames.len();
    let ghost target = t.frames@.map_values(|f: FrameSnapshot| frame_of(f));
    for j in 0..n
        invariant
            n == t.frames.len(),
            target == t.frames@.map_values(|f: FrameSnapshot| frame_of(f)),
            frames.len() == j,
            forall|m: int| 0 <= m < j ==> #[trigger] frames@[m]@ == target[m],
    {
        let frame_ = frame_from(&t.frames[j]);
        frames.push(frame_);
    }
    assert(frames_view(frames@) =~= target);
    let thread_ = Mythread {
        index_id: t.index_id,
        name: t.name.clone(),
        stop_reason: t.stop_reason,
        frames,
    };
    assert(thread_@ =~= thread_of(*t));
    thread_
}

/// Builds the crash of a process, to be compared under the strategy `s`.
pub fn create_crash(s: &Strategy, process: &ProcessSnapshot) -> (r: AnyCrash)
    ensures
        r.strategy() == *s,
        r.threads() == threads_of(*process),
{
    let mut threads: Vec<Mythread> = Vec::new();
    let n = process.threads.len();
    let ghost target = threads_of(*process);
    for i in 0..n
        invariant
            n == process.threads.len(),
            target == threads_of(*process),
            threads.len() == i,
            forall|m: int| 0 <= m < i ==> #[trigger] threads@[m]@ == target[m],
    {
        let thread_ = thread_from(&process.threads[i]);
        threads.push(thread_);
    }
    assert(threads_view(threads@) =~= target);
    match s {
        Strategy::ALLEqual => AnyCrash::All(CrashAll { threads }),
        Strategy::RootEqual => AnyCrash::Root(CrashRoot { threads }),
    }
}

// ---------------------------------------------------------------------------
// Reports.
// ---------------------------------------------------------------------------

/// The report line of a frame.
pub open spec fn frame_text(f: FrameView) -> Seq<char> {
    "\tfile name:"@ + f.file_name + "\tfunction name: "@ + f.function_name + "\tline:"@
        + f.line_name + " "@ + decimal(f.line_num as nat) + "\n"@
}

/// The report lines of a sequence of frames, in order.
pub open spec fn frames_text(fs: Seq<FrameView>) -> Seq<char>
    decreases fs.len(),
{
    if fs.len() == 0 {
        Seq::empty()
    } else {
        frames_text(fs.drop_last()) + frame_text(fs.last())
    }
}

/// The report of a thread: a head line, then a line for each frame.
pub open spec fn thread_text(t: ThreadView) -> Seq<char> {
    "thread id: "@ + decimal(t.index_id as nat) + "\tname: "@ + t.name + "\tstop reason: "@
        + stop_reason_text(t.stop_reason) + "\n"@ + frames_text(t.frames)
}

/// The report of a crash: each thread's report followed by an empty line.
pub open spec fn crash_text(ts: Seq<ThreadView>) -> Seq<char>
    decreases ts.len(),
{
    if ts.len() == 0 {
        Seq::empty()
    } else {
        crash_text(ts.drop_last()) + thread_text(ts.last()) + "\n"@
    }
}

impl Myframe {
    /// The report line of the frame.
    pub fn report(&self) -> (r: String)
        ensures
            r@ == frame_text(self@),
    {
        let mut report = String::new();
        report.append("\tfile name:");
        report.append(self.file_name.as_str());
        report.append("\tfunction name: ");
        report.append(self.function_name.as_str());
        report.append("\tline:");
        report.append(self.line_name.as_str());
        report.append(" ");
        push_decimal(&mut report, self.line_num as u64);
        report.append("\n");
        assert(report@ =~= frame_text(self@));
        report
    }
}

impl Mythread {
    /// The report of the thread: a head line, then a line for each frame.
    pub fn report(&self) -> (r: String)
        ensures
            r@ == thread_text(self@),
    {
        let mut report = String::new();
        report.append("thread id: ");
        push_decimal(&mut report, self.index_id as u64);
        report.append("\tname: ");
        report.append(self.name.as_str());
        report.append("\tstop reason: ");
        report.append(self.stop_reason.text());
        report.append("\n");
        let ghost head = report@;
        let ghost fs = frames_view(self.frames@);
        let n = self.frames.len();
        for j in 0..n
            invariant
                n == self.frames.len(),
                fs == frames_view(self.frames@),
                report@ == head + frames_text(fs.take(j as int)),
        {
            let line = self.frames[j].report();
            let ghost before = report@;
            report.append(line.as_str());
            proof {
                assert(fs.take(j + 1).drop_last() =~= fs.take(j as int));
                assert(fs.take(j + 1).last() == fs[j as int]);
                assert(report@ =~= head + frames_text(fs.take(j + 1)));
            }
        }
        assert(fs.take(n as int) =~= fs);
        assert(report@ =~= thread_text(self@));
        report
    }
}

/// The report of a crash: each thread's report followed by an empty line.
pub fn report(crash: &AnyCrash) -> (r: String)
    ensures
        r@ == crash_text(crash.threads()),
{
    let mut report = String::new();
    let threads = crash.get_threads();
    let ghost ts = threads_view(threads@);
    let n = threads.len();
    assert(ts.take(0) =~= Seq::<ThreadView>::empty());
    for i in 0..n
        invariant
            n == threads.len(),
            ts == threads_view(threads@),
            report@ == crash_text(ts.take(i as int)),
    {
        let text = threads[i].report();
        report.append(text.as_str());
        report.append("\n");
        proof {
            assert(ts.take(i + 1).drop_last() =~= ts.take(i as int));
            assert(ts.take(i + 1).last() == ts[i as int]);
            assert(report@ =~= crash_text(ts.take(i + 1)));
        }
    }
    assert(ts.take(n as int) =~= ts);
    report
}

/// Whether comparing two sequences of threads under `RootEqual` is defined.
fn root_comparable_threads(a: &Vec<Mythread>, b: &Vec<Mythread>) -> (r: bool)
    ensures
        r == root_comparable(threads_view(a@), threads_view(b@)),
{
    let ghost x = threads_view(a@);
    let ghost y = threads_view(b@);
    if a.len() != b.len() {
        return true;
    }
    let n = a.len();
    for i in 0..n
        invariant
            n == a.len(),
            n == b.len(),
            x == threads_view(a@),
            y == threads_view(b@),
            forall|j: int| 0 <= j < i ==> #[trigger] same_root_thread(x[j], y[j]),
            forall|k: int|
                #![trigger x[k], y[k]]
                0 <= k < i ==> x[k].frames.len() > 0 && y[k].frames.len() > 0,
    {
        if !same_thread_head(&a[i], &b[i]) {
            assert forall|k: int|
                #![trigger x[k], y[k]]
                0 <= k < x.len() && (forall|j: int| 0 <= j < k ==> #[trigger] same_root_thread(x[j], y[j]))
                    && same_head(x[k], y[k]) implies x[k].frames.len() > 0 && y[k].frames.len() > 0 by {
                if k > i {
                    assert(same_root_thread(x[i as int], y[i as int]));
                }
            }
            return true;
        }
        assert(frames_view(a[i as int].frames@) == x[i as int].frames);
        assert(frames_view(b[i as int].frames@) == y[i as int].frames);
        if a[i].frames.len() == 0 || b[i].frames.len() == 0 {
            return false;
        }
        let la = a[i].frames.len() - 1;
        let lb = b[i].frames.len() - 1;
        if !same_frame(&a[i].frames[la], &b[i].frames[lb]) {
            assert(!same_root_thread(x[i as int], y[i as int]));
            assert forall|k: int|
                #![trigger x[k], y[k]]
                0 <= k < x.len() && (forall|j: int| 0 <= j < k ==> #[trigger] same_root_thread(x[j], y[j]))
                    && same_head(x[k], y[k]) implies x[k].frames.len() > 0 && y[k].frames.len() > 0 by {
                if k > i {
                    assert(same_root_thread(x[i as int], y[i as int]));
                }
            }
            return true;
        }
        assert(same_root_thread(x[i as int], y[i as int]));
    }
    true
}

impl AnyCrash {
    /// Whether comparing this crash with `crash_` (by `is_same`) is defined.
    pub fn comparable(&self, crash_: &AnyCrash) -> (r: bool)
        ensures
            r == self.comparable_with(crash_.threads()),
    {
        match self {
            AnyCrash::All(_) => true,
            AnyCrash::Root(c) => root_comparable_threads(&c.threads, crash_.get_threads()),
        }
    }
}

// ---------------------------------------------------------------------------
// Laws of the two comparisons.
// ---------------------------------------------------------------------------

/// Under `ALLEqual`, being the same crash is an equivalence: every crash is
/// the same as itself, the relation is symmetric, and it is transitive.
pub proof fn lemma_all_equal_is_equivalence(a: Seq<ThreadView>, b: Seq<ThreadView>, c: Seq<ThreadView>)
    ensures
        all_equal(a, a),
        all_equal(a, b) ==> all_equal(b, a),
        all_equal(a, b) && all_equal(b, c) ==> all_equal(a, c),
{
}

/// Under `RootEqual`, being the same crash is an equivalence: every crash is
/// the same as itself, the relation is symmetric, and it is transitive.
pub proof fn lemma_root_equal_is_equivalence(a: Seq<ThreadView>, b: Seq<ThreadView>, c: Seq<ThreadView>)
    ensures
        root_equal(a, a),
        root_equal(a, b) ==> root_equal(b, a),
        root_equal(a, b) && root_equal(b, c) ==> root_equal(a, c),
{
    assert forall|i: int| 0 <= i < a.len() implies #[trigger] same_root_thread(a[i], a[i]) by {}
    if root_equal(a, b) {
        assert forall|i: int| 0 <= i < b.len() implies #[trigger] same_root_thread(b[i], a[i]) by {
            assert(same_root_thread(a[i], b[i]));
        }
    }
    if root_equal(a, b) && root_equal(b, c) {
        assert forall|i: int| 0 <= i < a.len() implies #[trigger] same_root_thread(a[i], c[i]) by {
            assert(same_root_thread(a[i], b[i]));
            assert(same_root_thread(b[i], c[i]));
        }
    }
}

/// Two crashes that are the same under `ALLEqual` are the same under
/// `RootEqual`: the first strategy is the stricter one.
pub proof fn lemma_all_equal_implies_root_equal(a: Seq<ThreadView>, b: Seq<ThreadView>)
    requires
        all_equal(a, b),
    ensures
        root_equal(a, b),
{
    lemma_root_equal_is_equivalence(a, a, a);
}

/// Under either strategy, being the same crash is reflexive and symmetric.
pub proof fn lemma_same_under_reflexive_symmetric(s: Strategy, a: Seq<ThreadView>, b: Seq<ThreadView>)
    ensures
        same_under(s, a, a),
        same_under(s, a, b) ==> same_under(s, b, a),
{
    lemma_root_equal_is_equivalence(a, b, a);
}

// ---------------------------------------------------------------------------
// Laws of building a crash and of its report.
// ---------------------------------------------------------------------------

/// A frame whose module file exists keeps the file name, the function name
/// whenever the debugger has one (whatever the line entry), and the line
/// whenever there is a line entry (whatever the function name); a frame
/// whose module file does not exist is blank, with line 0.
pub proof fn lemma_frame_of_fields(f: FrameSnapshot)
    ensures
        f.module_file is None ==> frame_of(f).file_name.len() == 0 && frame_of(f).function_name.len()
            == 0 && frame_of(f).line_name.len() == 0 && frame_of(f).line_num == 0,
        f.module_file matches Some(m) ==> frame_of(f).file_name == m@,
        f.module_file is Some ==> (f.function_name matches Some(n) ==> frame_of(f).function_name
            == n@),
        f.module_file is Some ==> (f.function_name is None ==> frame_of(f).function_name.len()
            == 0),
        f.module_file is Some ==> (f.line_entry matches Some(l) ==> frame_of(f).line_name == l.0@
            && frame_of(f).line_num == l.1),
        f.module_file is Some ==> (f.line_entry is None ==> frame_of(f).line_name.len() == 0
            && frame_of(f).line_num == 0),
{
}

/// The function name of a built frame does not depend on the line entry,
/// and its line does not depend on the function name.
pub proof fn lemma_frame_of_independent(f: FrameSnapshot, g: FrameSnapshot)
    ensures
        f.module_file == g.module_file && f.function_name == g.function_name ==> frame_of(
            f,
        ).function_name == frame_of(g).function_name,
        f.module_file == g.module_file && f.line_entry == g.line_entry ==> frame_of(f).line_name
            == frame_of(g).line_name && frame_of(f).line_num == frame_of(g).line_num,
{
}

/// The crash of a process has a thread for each thread read, with a frame
/// for each frame read, in order.
pub proof fn lemma_threads_of_shape(p: ProcessSnapshot, i: int, j: int)
    requires
        0 <= i < p.threads@.len(),
    ensures
        threads_of(p).len() == p.threads@.len(),
        threads_of(p)[i].index_id == p.threads@[i].index_id,
        threads_of(p)[i].name == p.threads@[i].name@,
        threads_of(p)[i].stop_reason == p.threads@[i].stop_reason,
        threads_of(p)[i].frames.len() == p.threads@[i].frames@.len(),
        0 <= j < p.threads@[i].frames@.len() ==> threads_of(p)[i].frames[j] == frame_of(
            p.threads@[i].frames@[j],
        ),
{
}

/// Two crashes are the same under `RootEqual` exactly when they have as many
/// threads and, at each position, the threads have the same id, name and
/// stop reason, and outermost frames with the same file name, function
/// name, line name and line number.
pub proof fn lemma_root_equal_fields(a: Seq<ThreadView>, b: Seq<ThreadView>)
    ensures
        root_equal(a, b) <==> (a.len() == b.len() && forall|i: int|
            #![trigger a[i], b[i]]
            0 <= i < a.len() ==> {
                &&& a[i].index_id == b[i].index_id
                &&& a[i].name == b[i].name
                &&& a[i].stop_reason == b[i].stop_reason
                &&& a[i].frames.last().file_name == b[i].frames.last().file_name
                &&& a[i].frames.last().function_name == b[i].frames.last().function_name
                &&& a[i].frames.last().line_name == b[i].frames.last().line_name
                &&& a[i].frames.last().line_num == b[i].frames.last().line_num
            }),
{
    if a.len() == b.len() && forall|i: int|
        #![trigger a[i], b[i]]
        0 <= i < a.len() ==> {
            &&& a[i].index_id == b[i].index_id
            &&& a[i].name == b[i].name
            &&& a[i].stop_reason == b[i].stop_reason
            &&& a[i].frames.last().file_name == b[i].frames.last().file_name
            &&& a[i].frames.last().function_name == b[i].frames.last().function_name
            &&& a[i].frames.last().line_name == b[i].frames.last().line_name
            &&& a[i].frames.last().line_num == b[i].frames.last().line_num
        } {
        assert forall|i: int| 0 <= i < a.len() implies #[trigger] same_root_thread(a[i], b[i]) by {
            assert(a[i].frames.last() =~= b[i].frames.last());
        }
    }
    if root_equal(a, b) {
        assert forall|i: int| #![trigger a[i], b[i]] 0 <= i < a.len() implies {
            &&& a[i].index_id == b[i].index_id
            &&& a[i].name == b[i].name
            &&& a[i].stop_reason == b[i].stop_reason
            &&& a[i].frames.last().file_name == b[i].frames.last().file_name
            &&& a[i].frames.last().function_name == b[i].frames.last().function_name
            &&& a[i].frames.last().line_name == b[i].frames.last().line_name
            &&& a[i].frames.last().line_num == b[i].frames.last().line_num
        } by {
            assert(same_root_thread(a[i], b[i]));
        }
    }
}

/// The frame lines of a stack are those of its frames, in order: the lines
/// of a stack with one more frame are the lines of the stack followed by
/// that frame's line, and no frame has an empty line.
pub proof fn lemma_frames_text_push(fs: Seq<FrameView>, f: FrameView)
    ensures
        frames_text(Seq::<FrameView>::empty()) == Seq::<char>::empty(),
        frames_text(fs.push(f)) == frames_text(fs) + frame_text(f),
{
    assert(fs.push(f).drop_last() =~= fs);
}

/// The frame lines of two stacks put together are the lines of the first
/// followed by those of the second.
pub proof fn lemma_frames_text_concat(fs: Seq<FrameView>, gs: Seq<FrameView>)
    ensures
        frames_text(fs + gs) == frames_text(fs) + frames_text(gs),
    decreases gs.len(),
{
    if gs.len() == 0 {
        assert(fs + gs =~= fs);
        assert(frames_text(fs) + frames_text(gs) =~= frames_text(fs));
    } else {
        let g = gs.last();
        let hs = gs.drop_last();
        lemma_frames_text_concat(fs, hs);
        assert(fs + gs =~= (fs + hs).push(g));
        lemma_frames_text_push(fs + hs, g);
        lemma_frames_text_push(hs, g);
        assert(hs.push(g) =~= gs);
        assert(frames_text(fs + gs) =~= frames_text(fs) + frames_text(gs));
    }
}

/// The report of a crash with one more thread is the report of the crash
/// followed by that thread's report and an empty line.
pub proof fn lemma_crash_text_push(ts: Seq<ThreadView>, t: ThreadView)
    ensures
        crash_text(Seq::<ThreadView>::empty()) == Seq::<char>::empty(),
        crash_text(ts.push(t)) == crash_text(ts) + thread_text(t) + "\n"@,
{
    assert(ts.push(t).drop_last() =~= ts);
}

/// The report of two crashes' threads put together is the report of the
/// first followed by that of the second.
pub proof fn lemma_crash_text_concat(ts: Seq<ThreadView>, us: Seq<ThreadView>)
    ensures
        crash_text(ts + us) == crash_text(ts) + crash_text(us),
    decreases us.len(),
{
    if us.len() == 0 {
        assert(ts + us =~= ts);
        assert(crash_text(ts) + crash_text(us) =~= crash_text(ts));
    } else {
        let u = us.last();
        let vs = us.drop_last();
        lemma_crash_text_concat(ts, vs);
        assert(ts + us =~= (ts + vs).push(u));
        lemma_crash_text_push(ts + vs, u);
        lemma_crash_text_push(vs, u);
        assert(vs.push(u) =~= us);
        assert(crash_text(ts + us) =~= crash_text(ts) + crash_text(us));
    }
}

} // verus!
