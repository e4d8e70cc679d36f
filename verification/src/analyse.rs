//! The set of unique crashes of an application, and its report.

use vstd::prelude::*;

use crate::crash::{
    Crash, AnyCrash, ProcessSnapshot, ThreadView, create_crash, report as crash_report, threads_of,
    same_under, comparable_under, crash_text, lemma_same_under_reflexive_symmetric,
};
use crate::text::{decimal, push_decimal, debug_text, debug_quote, lemma_decimal_injective};

verus! {

/// How two crashes are judged to be duplicates.
#[derive(Clone, Copy, Debug, PartialEq, Eq, Structural)]
pub enum Strategy {
    /// All threads, with all their frames, must be equal.
    ALLEqual,
    /// The threads must agree on id, name, stop reason and outermost frame.
    RootEqual,
}

/// A stored crash: the name it was stored under (the core file's path) and
/// its threads.
pub type Entry = (Seq<char>, Seq<ThreadView>);

/// The stored crashes that a vector of named crashes holds, in order.
pub open spec fn entries_of(v: Seq<(String, AnyCrash)>) -> Seq<Entry> {
    v.map_values(|e: (String, AnyCrash)| (e.0@, e.1.threads()))
}

/// The stored crashes have distinct names, and no two of them are the same
/// crash under the strategy.
pub open spec fn entries_wf(s: Strategy, e: Seq<Entry>) -> bool {
    &&& forall|i: int, j: int|
        #![trigger e[i], e[j]]
        0 <= i < e.len() && 0 <= j < e.len() && i != j ==> e[i].0 != e[j].0
    &&& forall|i: int, j: int|
        #![trigger e[i], e[j]]
        0 <= i < e.len() && 0 <= j < e.len() && i != j ==> !same_under(s, e[i].1, e[j].1)
}

/// Some stored crash is the same as a crash with the threads `t`.
pub open spec fn has_duplicate(s: Strategy, e: Seq<Entry>, t: Seq<ThreadView>) -> bool {
    exists|i: int| 0 <= i < e.len() && #[trigger] same_under(s, e[i].1, t)
}

/// Looking for a duplicate of `t`, which compares the stored crashes in order
/// until one is the same, compares only where comparing is defined.
pub open spec fn lookup_defined(s: Strategy, e: Seq<Entry>, t: Seq<ThreadView>) -> bool {
    forall|i: int|
        #![trigger e[i]]
        0 <= i < e.len() && (forall|j: int| 0 <= j < i ==> !#[trigger] same_under(s, e[j].1, t))
            ==> comparable_under(s, e[i].1, t)
}

/// Some crash is stored under `key`.
pub open spec fn has_key(e: Seq<Entry>, key: Seq<char>) -> bool {
    exists|i: int| 0 <= i < e.len() && #[trigger] e[i].0 == key
}

/// The first position at which a crash is stored under `key`.
pub open spec fn key_index(e: Seq<Entry>, key: Seq<char>) -> int {
    choose|i: int|
        #![trigger e[i]]
        0 <= i < e.len() && e[i].0 == key && forall|j: int| 0 <= j < i ==> (#[trigger] e[j]).0 != key
}

/// Where a crash is stored under `key`, `key_index` finds the first such
/// position.
pub proof fn lemma_key_index(e: Seq<Entry>, key: Seq<char>, i: int)
    requires
        0 <= i < e.len(),
        e[i].0 == key,
    ensures
        0 <= key_index(e, key) <= i,
        e[key_index(e, key)].0 == key,
        forall|j: int| 0 <= j < key_index(e, key) ==> (#[trigger] e[j]).0 != key,
    decreases i,
{
    if exists|j: int| 0 <= j < i && (#[trigger] e[j]).0 == key {
        let j = choose|j: int| 0 <= j < i && (#[trigger] e[j]).0 == key;
        lemma_key_index(e, key, j);
    } else {
        assert(forall|j: int| 0 <= j < i ==> (#[trigger] e[j]).0 != key);
    }
}

/// Stores `t` under `key`: it takes the place of the (first) crash stored
/// under the same name, or is put after the others.
pub open spec fn insert_entry(e: Seq<Entry>, key: Seq<char>, t: Seq<ThreadView>) -> Seq<Entry> {
    if has_key(e, key) {
        e.update(key_index(e, key), (key, t))
    } else {
        e.push((key, t))
    }
}

/// Adding a crash: it is stored under `key` unless a stored crash is the
/// same.
pub open spec fn add_step(s: Strategy, e: Seq<Entry>, key: Seq<char>, t: Seq<ThreadView>) -> Seq<
    Entry,
> {
    if has_duplicate(s, e, t) {
        e
    } else {
        insert_entry(e, key, t)
    }
}

/// The head of a report.
pub open spec fn header_text(app: Seq<char>, n: nat) -> Seq<char> {
    "crashes analyse for application = "@ + app + "\ntotal unique crashes number: "@ + decimal(n)
        + "\n"@
}

/// The part of a report on the stored crashes, where `q[i]` is the quoted
/// name of `e[i]`.
pub open spec fn entries_text(e: Seq<Entry>, q: Seq<Seq<char>>) -> Seq<char>
    decreases e.len(),
{
    if e.len() == 0 || q.len() == 0 {
        Seq::empty()
    } else {
        entries_text(e.drop_last(), q.drop_last()) + "coredump file: "@ + q.last() + "\n"@
            + crash_text(e.last().1)
    }
}

/// A report on the stored crashes of an application.
pub open spec fn report_text(app: Seq<char>, e: Seq<Entry>, q: Seq<Seq<char>>) -> Seq<char> {
    header_text(app, e.len()) + entries_text(e, q)
}

/// The quoted names of stored crashes.
pub open spec fn quoted_names(e: Seq<Entry>) -> Seq<Seq<char>> {
    e.map_values(|x: Entry| debug_text(x.0))
}

/// Writes the report on the crashes `entries` of the application `app`,
/// where `quoted_keys[i]` is the quoted name of `entries[i]`.
pub fn compose_report(app: &String, entries: &Vec<(String, AnyCrash)>, quoted_keys: &Vec<String>) -> (r:
    String)
    requires
        quoted_keys.len() == entries.len(),
    ensures
        r@ == report_text(
            app@,
            entries_of(entries@),
            quoted_keys@.map_values(|q: String| q@),
        ),
{
    let ghost e = entries_of(entries@);
    let ghost q = quoted_keys@.map_values(|q: String| q@);
    let mut report = String::new();
    report.append("crashes analyse for application = ");
    report.append(app.as_str());
    report.append("\ntotal unique crashes number: ");
    push_decimal(&mut report, entries.len() as u64);
    report.append("\n");
    let ghost head = report@;
    let n = entries.len();
    assert(entries_text(e.take(0), q.take(0)) =~= Seq::<char>::empty());
    for i in 0..n
        invariant
            n == entries.len(),
            n == quoted_keys.len(),
            e == entries_of(entries@),
            q == quoted_keys@.map_values(|q: String| q@),
            report@ == head + entries_text(e.take(i as int), q.take(i as int)),
    {
        report.append("coredump file: ");
        report.append(quoted_keys[i].as_str());
        report.append("\n");
        let text = crash_report(&entries[i].1);
        report.append(text.as_str());
        proof {
            assert(e.take(i + 1).drop_last() =~= e.take(i as int));
            assert(q.take(i + 1).drop_last() =~= q.take(i as int));
            assert(e.take(i + 1).last() == e[i as int]);
            assert(q.take(i + 1).last() == q[i as int]);
            assert(report@ =~= head + entries_text(e.take(i + 1), q.take(i + 1)));
        }
    }
    assert(e.take(n as int) =~= e);
    assert(q.take(n as int) =~= q);
    assert(report@ =~= report_text(app@, e, q));
    report
}

/// The unique crashes seen so far, each under the name it was stored with.
/// They are kept in a vector in the order they were stored; no two have the
/// same name, so the vector is a map from names to crashes.
pub struct AnalyseCrash {
    strategy: Strategy,
    crashes: Vec<(String, AnyCrash)>,
}

impl AnalyseCrash {
    /// The strategy by which duplicates are found.
    pub closed spec fn kind(&self) -> Strategy {
        self.strategy
    }

    /// The stored crashes, in the order they were stored.
    pub closed spec fn entries(&self) -> Seq<Entry> {
        entries_of(self.crashes@)
    }

    /// The store is consistent: the names are distinct, no two crashes are
    /// the same, and every crash is compared under the store's strategy.
    pub closed spec fn wf(&self) -> bool {
        &&& entries_wf(self.strategy, self.entries())
        &&& forall|i: int|
            0 <= i < self.crashes@.len() ==> (#[trigger] self.crashes@[i]).1.strategy()
                == self.strategy
    }

    /// An empty store that finds duplicates by `strategy`.
    pub fn new(strategy: Strategy) -> (r: AnalyseCrash)
        ensures
            r.wf(),
            r.kind() == strategy,
            r.entries() == Seq::<Entry>::empty(),
    {
        let r = AnalyseCrash { strategy, crashes: Vec::new() };
        assert(r.entries() =~= Seq::<Entry>::empty());
        r
    }

    /// The number of unique crashes.
    pub fn num_unique_crashes(&self) -> (r: usize)
        ensures
            r == self.entries().len(),
    {
        self.crashes.len()
    }

    /// The unique crashes with their names.
    pub fn get_unique_crashes(&self) -> (r: &Vec<(String, AnyCrash)>)
        ensures
            entries_of(r@) == self.entries(),
            self.wf() ==> forall|i: int|
                0 <= i < r@.len() ==> (#[trigger] r@[i]).1.strategy() == self.kind(),
    {
        &self.crashes
    }

    /// Whether a stored crash is the same as `crash_`; the stored crashes are
    /// compared in order until one is.
    fn contains(&self, crash_: &AnyCrash) -> (r: bool)
        requires
            self.wf(),
            lookup_defined(self.kind(), self.entries(), crash_.threads()),
        ensures
            r == has_duplicate(self.kind(), self.entries(), crash_.threads()),
    {
        let ghost e = self.entries();
        let ghost t = crash_.threads();
        let n = self.crashes.len();
        for i in 0..n
            invariant
                n == self.crashes.len(),
                self.wf(),
                e == self.entries(),
                t == crash_.threads(),
                lookup_defined(self.kind(), e, t),
                forall|j: int| 0 <= j < i ==> !#[trigger] same_under(self.kind(), e[j].1, t),
        {
            let _crash = &self.crashes[i].1;
            assert(e[i as int].1 == _crash.threads());
            assert(_crash.strategy() == self.kind());
            if _crash.is_same(crash_) {
                return true;
            }
        }
        false
    }

    /// The position of the crash stored under `key`, or the number of stored
    /// crashes if there is none.
    fn find_key(&self, key: &String) -> (r: usize)
        ensures
            r <= self.entries().len(),
            r < self.entries().len() ==> self.entries()[r as int].0 == key@,
            forall|j: int| 0 <= j < r ==> (#[trigger] self.entries()[j]).0 != key@,
            r == self.entries().len() ==> forall|j: int|
                0 <= j < self.entries().len() ==> (#[trigger] self.entries()[j]).0 != key@,
    {
        let ghost e = self.entries();
        let n = self.crashes.len();
        for i in 0..n
            invariant
                n == self.crashes.len(),
                e == self.entries(),
                forall|j: int| 0 <= j < i ==> (#[trigger] e[j]).0 != key@,
        {
            if self.crashes[i].0 == *key {
                return i;
            }
        }
        n
    }

    /// Stores `crash` under `key`, in place of the crash stored under that
    /// name if there is one. The store stays consistent when the crash is
    /// compared under the store's strategy and is the same as no stored crash.
    fn insert(&mut self, key: String, crash: AnyCrash)
        ensures
            final(self).kind() == old(self).kind(),
            final(self).entries() == insert_entry(old(self).entries(), key@, crash.threads()),
            has_key(old(self).entries(), key@) ==> final(self).crashes@ == old(self).crashes@.update(
                key_index(old(self).entries(), key@),
                (key, crash),
            ),
            !has_key(old(self).entries(), key@) ==> final(self).crashes@ == old(self).crashes@.push(
                (key, crash),
            ),
            old(self).wf() && crash.strategy() == old(self).kind() && !has_duplicate(
                old(self).kind(),
                old(self).entries(),
                crash.threads(),
            ) ==> final(self).wf(),
    {
        let ghost e = self.entries();
        let ghost s = self.kind();
        let ghost t = crash.threads();
        let ghost old_crashes = self.crashes@;
        let ghost kv = (key, crash);
        let ghost good = self.wf() && crash.strategy() == s && !has_duplicate(s, e, t);
        let n = self.crashes.len();
        let found = self.find_key(&key);
        proof {
            lemma_same_under_reflexive_symmetric(s, t, t);
            if good {
                assert forall|i: int| 0 <= i < e.len() implies !same_under(s, t, #[trigger] e[i].1) by {
                    lemma_same_under_reflexive_symmetric(s, t, e[i].1);
                    if same_under(s, t, e[i].1) {
                        assert(same_under(s, e[i].1, t));
                    }
                }
            }
        }
        if found < n {
            let ghost i = found as int;
            assert(e[i].0 == key@);
            assert(has_key(e, key@));
            let ghost k = key_index(e, key@);
            assert(k == i) by {
                if k < i {
                    assert(e[k].0 != key@);
                } else if k > i {
                    assert(e[i].0 != key@);
                }
            }
            self.crashes.set(found, (key, crash));
            assert(self.entries() =~= e.update(i, (key@, t)));
            assert(self.crashes@ =~= old_crashes.update(i, kv));
        } else {
            assert(!has_key(e, key@));
            self.crashes.push((key, crash));
            assert(self.entries() =~= e.push((key@, t)));
            assert(self.crashes@ =~= old_crashes.push(kv));
        }
        assert(self.entries() == insert_entry(e, key@, t));
    }

    /// Reads the crash of `process` and stores it under `core_path` unless a
    /// stored crash is the same. Always answers `true`.
    pub fn add_crash(&mut self, core_path: String, process: &ProcessSnapshot) -> (r: bool)
        requires
            old(self).wf(),
            lookup_defined(old(self).kind(), old(self).entries(), threads_of(*process)),
        ensures
            r,
            final(self).wf(),
            final(self).kind() == old(self).kind(),
            final(self).entries() == add_step(
                old(self).kind(),
                old(self).entries(),
                core_path@,
                threads_of(*process),
            ),
            has_duplicate(final(self).kind(), final(self).entries(), threads_of(*process)),
    {
        let crash = create_crash(&self.strategy, process);
        if self.contains(&crash) == false {
            self.insert(core_path, crash);
        }
        proof {
            lemma_add_step_keeps_crash(
                old(self).kind(),
                old(self).entries(),
                core_path@,
                threads_of(*process),
            );
        }
        true
    }

    /// Whether `add_crash` with `process` compares only where comparing is
    /// defined.
    pub fn can_add(&self, process: &ProcessSnapshot) -> (r: bool)
        requires
            self.wf(),
        ensures
            r == lookup_defined(self.kind(), self.entries(), threads_of(*process)),
    {
        let crash = create_crash(&self.strategy, process);
        let ghost e = self.entries();
        let ghost t = crash.threads();
        let ghost s = self.kind();
        let n = self.crashes.len();
        for i in 0..n
            invariant
                n == self.crashes.len(),
                self.wf(),
                e == self.entries(),
                s == self.kind(),
                t == crash.threads(),
                t == threads_of(*process),
                crash.strategy() == s,
                forall|j: int| 0 <= j < i ==> !#[trigger] same_under(s, e[j].1, t),
                forall|j: int| 0 <= j < i ==> #[trigger] comparable_under(s, e[j].1, t),
        {
            let _crash = &self.crashes[i].1;
            assert(e[i as int].1 == _crash.threads());
            assert(_crash.strategy() == s);
            if !_crash.comparable(&crash) {
                return false;
            }
            if _crash.is_same(&crash) {
                assert forall|k: int|
                    #![trigger e[k]]
                    0 <= k < e.len() && (forall|j: int|
                        0 <= j < k ==> !#[trigger] same_under(s, e[j].1, t)) implies comparable_under(
                    s,
                    e[k].1,
                    t,
                ) by {
                    if k > i {
                        assert(!same_under(s, e[i as int].1, t));
                    }
                }
                return true;
            }
        }
        true
    }

    /// The report on the stored crashes of the application `app`: a head
    /// with the number of unique crashes, then for each crash its quoted name
    /// and its threads.
    pub fn report(&self, app: &String) -> (r: String)
        ensures
            r@ == report_text(app@, self.entries(), quoted_names(self.entries())),
    {
        let ghost e = self.entries();
        let mut quoted: Vec<String> = Vec::new();
        let n = self.crashes.len();
        for i in 0..n
            invariant
                n == self.crashes.len(),
                e == self.entries(),
                quoted.len() == i,
                forall|j: int| 0 <= j < i ==> #[trigger] quoted@[j]@ == debug_text(e[j].0),
        {
            let q = debug_quote(&self.crashes[i].0);
            quoted.push(q);
        }
        assert(quoted@.map_values(|q: String| q@) =~= quoted_names(e));
        compose_report(app, &self.crashes, &quoted)
    }
}

/// The name under which a live store keeps its crash at position `i`.
pub open spec fn hot_name(i: nat) -> Seq<char> {
    "Hot-"@ + decimal(i)
}

/// Different positions have different names.
proof fn lemma_hot_name_injective(a: nat, b: nat)
    requires
        hot_name(a) == hot_name(b),
    ensures
        a == b,
{
    let p = "Hot-"@;
    assert(hot_name(a).skip(p.len() as int) =~= decimal(a));
    assert(hot_name(b).skip(p.len() as int) =~= decimal(b));
    lemma_decimal_injective(a, b);
}

/// The unique crashes of a live process. There is no core file to name a
/// crash after, so the crash at position `i` is named `Hot-i`.
pub struct AnalyseHot {
    analyse: AnalyseCrash,
}

impl AnalyseHot {
    /// The strategy by which duplicates are found.
    pub closed spec fn kind(&self) -> Strategy {
        self.analyse.kind()
    }

    /// The stored crashes.
    pub closed spec fn entries(&self) -> Seq<Entry> {
        self.analyse.entries()
    }

    /// The store is consistent and the crash at each position `i` is named
    /// `hot_name(i)`.
    pub closed spec fn wf(&self) -> bool {
        &&& self.analyse.wf()
        &&& forall|i: int|
            0 <= i < self.entries().len() ==> (#[trigger] self.entries()[i]).0 == hot_name(
                i as nat,
            )
    }

    /// An empty store that finds duplicates by `s`.
    pub fn new(s: Strategy) -> (r: AnalyseHot)
        ensures
            r.wf(),
            r.kind() == s,
            r.entries() == Seq::<Entry>::empty(),
    {
        AnalyseHot { analyse: AnalyseCrash::new(s) }
    }

    /// Reads the crash of `process` and, unless a stored crash is the same,
    /// stores it after the others under a new name. Always answers `true`.
    pub fn add_crash(&mut self, process: &ProcessSnapshot) -> (r: bool)
        requires
            old(self).wf(),
            lookup_defined(old(self).kind(), old(self).entries(), threads_of(*process)),
        ensures
            r,
            final(self).wf(),
            final(self).kind() == old(self).kind(),
            final(self).entries() == (if has_duplicate(
                old(self).kind(),
                old(self).entries(),
                threads_of(*process),
            ) {
                old(self).entries()
            } else {
                old(self).entries().push(
                    (hot_name(old(self).entries().len()), threads_of(*process)),
                )
            }),
            has_duplicate(final(self).kind(), final(self).entries(), threads_of(*process)),
    {
        let ghost e = self.entries();
        let ghost t = threads_of(*process);
        let n = self.analyse.num_unique_crashes();
        let mut name = String::from_str("Hot-");
        push_decimal(&mut name, n as u64);
        assert(name@ =~= hot_name(n as nat));
        proof {
            assert forall|i: int| 0 <= i < e.len() implies (#[trigger] e[i]).0 != name@ by {
                assert(e[i].0 == hot_name(i as nat));
                if e[i].0 == name@ {
                    lemma_hot_name_injective(i as nat, n as nat);
                }
            }
            assert(!has_key(e, name@));
        }
        let r = self.analyse.add_crash(name, process);
        proof {
            if !has_duplicate(self.kind(), e, t) {
                assert forall|i: int| 0 <= i < self.entries().len() implies (#[trigger] self.entries()[i]).0
                    == hot_name(i as nat) by {
                    if i < e.len() {
                        assert(self.entries()[i] == e[i]);
                    }
                }
            }
        }
        r
    }

    /// Whether `add_crash` with `process` compares only where comparing is
    /// defined.
    pub fn can_add(&self, process: &ProcessSnapshot) -> (r: bool)
        requires
            self.wf(),
        ensures
            r == lookup_defined(self.kind(), self.entries(), threads_of(*process)),
    {
        self.analyse.can_add(process)
    }

    /// The number of unique crashes.
    pub fn num_unique_crashes(&self) -> (r: usize)
        ensures
            r == self.entries().len(),
    {
        self.analyse.num_unique_crashes()
    }

    /// The unique crashes with their names.
    pub fn get_unique_crashes(&self) -> (r: &Vec<(String, AnyCrash)>)
        ensures
            entries_of(r@) == self.entries(),
            self.wf() ==> forall|i: int|
                0 <= i < r@.len() ==> (#[trigger] r@[i]).1.strategy() == self.kind(),
    {
        self.analyse.get_unique_crashes()
    }

    /// The report on the stored crashes of the application `app`.
    pub fn report(&self, app: &String) -> (r: String)
        ensures
            r@ == report_text(app@, self.entries(), quoted_names(self.entries())),
    {
        self.analyse.report(app)
    }
}

/// After a crash is added, some stored crash is the same as it.
pub proof fn lemma_add_step_keeps_crash(s: Strategy, e: Seq<Entry>, key: Seq<char>, t: Seq<ThreadView>)
    ensures
        has_duplicate(s, add_step(s, e, key, t), t),
{
    lemma_same_under_reflexive_symmetric(s, t, t);
    if !has_duplicate(s, e, t) {
        let r = insert_entry(e, key, t);
        if has_key(e, key) {
            let w = choose|w: int| 0 <= w < e.len() && #[trigger] e[w].0 == key;
            lemma_key_index(e, key, w);
            let i = key_index(e, key);
            assert(r[i].1 == t);
            assert(same_under(s, r[i].1, t));
        } else {
            assert(r[e.len() as int].1 == t);
            assert(same_under(s, r[e.len() as int].1, t));
        }
    }
}

/// Adding the same crash twice, under any names, stores it once: the second
/// addition changes nothing.
pub proof fn lemma_add_step_idempotent(
    s: Strategy,
    e: Seq<Entry>,
    key1: Seq<char>,
    key2: Seq<char>,
    t: Seq<ThreadView>,
)
    ensures
        add_step(s, add_step(s, e, key1, t), key2, t) == add_step(s, e, key1, t),
{
    lemma_add_step_keeps_crash(s, e, key1, t);
}

/// The stored crashes of a consistent store have distinct names, and no two
/// of them are the same crash.
pub proof fn lemma_unique_crashes_are_distinct(a: &AnalyseCrash)
    requires
        a.wf(),
    ensures
        entries_wf(a.kind(), a.entries()),
{
}

/// The report part on one more stored crash is the part on the others
/// followed by a `coredump file:` line with its quoted name and its crash
/// report.
pub proof fn lemma_entries_text_push(e: Seq<Entry>, q: Seq<Seq<char>>, x: Entry, name: Seq<char>)
    requires
        e.len() == q.len(),
    ensures
        entries_text(Seq::<Entry>::empty(), Seq::<Seq<char>>::empty()) == Seq::<char>::empty(),
        entries_text(e.push(x), q.push(name)) == entries_text(e, q) + "coredump file: "@ + name
            + "\n"@ + crash_text(x.1),
{
    assert(e.push(x).drop_last() =~= e);
    assert(q.push(name).drop_last() =~= q);
}

} // verus!
