//! The test command: its flags, reading the test runner's answer, and the
//! report.

use vstd::prelude::*;
use vstd::utf8::encode_utf8;
use crate::cli::{any_arg, has_arg};
use crate::text::{str_eq, string_of_range, to_chars, trim, trim_chars, from_chars, find_chars, find_from, occurs_at, lemma_find_from, lemma_encode_len_trim, lemma_encode_concat, push_str};
use crate::utils::opt_view;
use crate::json::{JVal, Value, str_member, str_or, last_num, items_under, model, model_items, model_pairs, parse, parse_spec, lemma_model_items_index, lemma_model_pairs_index};
use crate::num::{lexeme_u32, lexeme_to_u32, count_or_zero, decimal, push_decimal};
use crate::json::{canonical_number, dot_index, strip_leading_zeros, push_number, find_dot, skip_zeros, push_range};
use crate::text::{quoted, push_quoted, views, push_char};
use crate::quickjs::{sources_json, file_views, push_sources_json};
use crate::lint::bool_text;
use crate::path::{extension_spec, ext_is};
use crate::order::{path_le, sort_paths};

verus! {

/// The flags of `glas test`.
pub struct TestFlags {
    pub filter: Option<String>,
    pub verbose: bool,
    pub json: bool,
    pub watch: bool,
}

impl Default for TestFlags {
    fn default() -> (r: Self)
        ensures
            r.filter is None && !r.verbose && !r.json && !r.watch,
    {
        TestFlags { filter: None, verbose: false, json: false, watch: false }
    }
}

/// The filter given from position `i` on, `cur` being the one given before:
/// each `--filter` with a value replaces it, and its value is skipped.
pub open spec fn filter_scan(args: Seq<String>, i: int, cur: Option<Seq<char>>) -> Option<Seq<char>>
    decreases args.len() - i,
{
    if i < 0 || i >= args.len() {
        cur
    } else if args[i]@ == "--filter"@ && i + 1 < args.len() {
        filter_scan(args, i + 2, Some(args[i + 1]@))
    } else {
        filter_scan(args, i + 1, cur)
    }
}

/// `--filter PATTERN` (the last one counts), `--verbose`/`-v`, `--json` and
/// `--watch`.
pub fn parse_test_flags(args: &[String]) -> (r: TestFlags)
    ensures
        opt_view(r.filter) == filter_scan(args@, 0, None),
        r.verbose == (has_arg(args@, "--verbose"@) || has_arg(args@, "-v"@)),
        r.json == has_arg(args@, "--json"@),
        r.watch == has_arg(args@, "--watch"@),
{
    let mut filter: Option<String> = None;
    let mut i: usize = 0;
    while i < args.len()
        invariant
            filter_scan(args@, i as int, opt_view(filter)) == filter_scan(args@, 0, None),
        decreases args.len() - i,
    {
        if str_eq(args[i].as_str(), "--filter") && i + 1 < args.len() {
            filter = Some(args[i + 1].clone());
            i = i + 1;
        }
        i = i + 1;
    }
    TestFlags {
        filter,
        verbose: any_arg(args, "--verbose") || any_arg(args, "-v"),
        json: any_arg(args, "--json"),
        watch: any_arg(args, "--watch"),
    }
}


/// The line the test runner prints before its JSON results.
pub const RESULTS_START: &'static str = "__GLAS_TEST_RESULTS__";

/// The line the test runner prints after its JSON results.
pub const RESULTS_END: &'static str = "__GLAS_END__";

/// One test as the runner reported it. The duration is the number's text.
pub struct TestEntry {
    pub name: String,
    pub status: String,
    pub error: String,
    pub duration: String,
}

/// A failed test, or a run that failed as a whole.
pub struct TestFailure {
    pub name: String,
    pub error: String,
    pub duration: String,
}

/// The outcome of a test run. The total time is the number's text.
pub struct TestResult {
    pub pass: u32,
    pub fail: u32,
    pub skip: u32,
    pub tests: Vec<TestEntry>,
    pub failures: Vec<TestFailure>,
    pub total_time: String,
}

pub struct Entry {
    pub name: Seq<char>,
    pub status: Seq<char>,
    pub error: Seq<char>,
    pub duration: Seq<char>,
}

pub struct Failure {
    pub name: Seq<char>,
    pub error: Seq<char>,
    pub duration: Seq<char>,
}

pub struct Outcome {
    pub pass: nat,
    pub fail: nat,
    pub skip: nat,
    pub tests: Seq<Entry>,
    pub failures: Seq<Failure>,
    pub total: Seq<char>,
}

impl View for TestEntry {
    type V = Entry;

    open spec fn view(&self) -> Entry {
        Entry { name: self.name@, status: self.status@, error: self.error@, duration: self.duration@ }
    }
}

impl View for TestFailure {
    type V = Failure;

    open spec fn view(&self) -> Failure {
        Failure { name: self.name@, error: self.error@, duration: self.duration@ }
    }
}

pub open spec fn eviews(v: Seq<TestEntry>) -> Seq<Entry> {
    v.map_values(|x: TestEntry| x@)
}

pub open spec fn fviews(v: Seq<TestFailure>) -> Seq<Failure> {
    v.map_values(|x: TestFailure| x@)
}

impl View for TestResult {
    type V = Outcome;

    open spec fn view(&self) -> Outcome {
        Outcome {
            pass: self.pass as nat,
            fail: self.fail as nat,
            skip: self.skip as nat,
            tests: eviews(self.tests@),
            failures: fviews(self.failures@),
            total: self.total_time@,
        }
    }
}

/// What one member of a test object sets: `name`, `status` and `error` from
/// strings, `duration` from a number.
pub open spec fn apply_entry_field(e: Entry, m: (Seq<char>, JVal)) -> Entry {
    match m.1 {
        JVal::Str(s) => if m.0 == "name"@ {
            Entry { name: s, ..e }
        } else if m.0 == "status"@ {
            Entry { status: s, ..e }
        } else if m.0 == "error"@ {
            Entry { error: s, ..e }
        } else {
            e
        },
        JVal::Num(t) => if m.0 == "duration"@ {
            Entry { duration: t, ..e }
        } else {
            e
        },
        _ => e,
    }
}

/// The test that an object describes: its last `name`, `status` and
/// `error` strings, and its last `duration` number (`0` where there is none).
pub open spec fn entry_of(ps: Seq<(Seq<char>, JVal)>) -> Entry {
    Entry {
        name: str_member(ps, "name"@),
        status: str_member(ps, "status"@),
        error: str_member(ps, "error"@),
        duration: str_or(last_num(ps, "duration"@), "0"@),
    }
}

proof fn lemma_entry_of_step(ps: Seq<(Seq<char>, JVal)>, i: int)
    requires
        0 <= i < ps.len(),
    ensures
        entry_of(ps.take(i + 1)) == apply_entry_field(entry_of(ps.take(i)), ps[i]),
{
    let q = ps.take(i + 1);
    assert(q.drop_last() =~= ps.take(i));
    assert(q.last() == ps[i]);
    reveal_strlit("name");
    reveal_strlit("status");
    reveal_strlit("error");
    assert("name"@.len() != "status"@.len() && "name"@.len() != "error"@.len() && "status"@.len() != "error"@.len());
}

/// The tests that the objects of an array describe.
pub open spec fn entries_of(items: Seq<JVal>) -> Seq<Entry>
    decreases items.len(),
{
    if items.len() == 0 {
        Seq::empty()
    } else {
        let r = entries_of(items.drop_last());
        match items.last() {
            JVal::Obj(ps) => r.push(entry_of(ps)),
            _ => r,
        }
    }
}

/// The counts, total time and tests of a results object.
pub struct Scan {
    pub pass: nat,
    pub fail: nat,
    pub skip: nat,
    pub total: Seq<char>,
    pub tests: Seq<Entry>,
}

pub open spec fn blank_scan() -> Scan {
    Scan { pass: 0, fail: 0, skip: 0, total: "0"@, tests: Seq::empty() }
}

/// What one member of the results object sets: the counts and the total
/// time from numbers, and each `tests` array adds its tests.
pub open spec fn apply_member(sc: Scan, m: (Seq<char>, JVal)) -> Scan {
    match m.1 {
        JVal::Num(t) => if m.0 == "pass"@ {
            Scan { pass: lexeme_u32(t), ..sc }
        } else if m.0 == "fail"@ {
            Scan { fail: lexeme_u32(t), ..sc }
        } else if m.0 == "skip"@ {
            Scan { skip: lexeme_u32(t), ..sc }
        } else if m.0 == "totalTime"@ {
            Scan { total: t, ..sc }
        } else {
            sc
        },
        JVal::Arr(items) => if m.0 == "tests"@ {
            Scan { tests: sc.tests + entries_of(items), ..sc }
        } else {
            sc
        },
        _ => sc,
    }
}

/// What the results object says: the counts in its last `pass`, `fail`
/// and `skip` numbers and the text of its last `totalTime` number (0 and
/// `0` where there is none), and the tests of all its `tests` arrays.
pub open spec fn scan_of(ps: Seq<(Seq<char>, JVal)>) -> Scan {
    Scan {
        pass: count_or_zero(last_num(ps, "pass"@)),
        fail: count_or_zero(last_num(ps, "fail"@)),
        skip: count_or_zero(last_num(ps, "skip"@)),
        total: str_or(last_num(ps, "totalTime"@), "0"@),
        tests: entries_of(items_under(ps, "tests"@)),
    }
}

proof fn lemma_entries_of_append(a: Seq<JVal>, b: Seq<JVal>)
    ensures
        entries_of(a + b) == entries_of(a) + entries_of(b),
    decreases b.len(),
{
    if b.len() == 0 {
        assert(a + b =~= a);
        assert(entries_of(a) + entries_of(b) =~= entries_of(a));
    } else {
        lemma_entries_of_append(a, b.drop_last());
        assert((a + b).drop_last() =~= a + b.drop_last());
        assert((a + b).last() == b.last());
        match b.last() {
            JVal::Obj(ps) => {
                assert(entries_of(a) + entries_of(b.drop_last()).push(entry_of(ps)) =~= (entries_of(a)
                    + entries_of(b.drop_last())).push(entry_of(ps)));
            },
            _ => {},
        }
    }
}

proof fn lemma_scan_of_step(ps: Seq<(Seq<char>, JVal)>, i: int)
    requires
        0 <= i < ps.len(),
    ensures
        scan_of(ps.take(i + 1)) == apply_member(scan_of(ps.take(i)), ps[i]),
{
    let q = ps.take(i + 1);
    assert(q.drop_last() =~= ps.take(i));
    assert(q.last() == ps[i]);
    reveal_strlit("pass");
    reveal_strlit("fail");
    reveal_strlit("skip");
    reveal_strlit("totalTime");
    reveal_strlit("tests");
    assert("pass"@[0] != "fail"@[0] && "pass"@[0] != "skip"@[0] && "fail"@[0] != "skip"@[0]);
    assert("totalTime"@.len() != "pass"@.len());
    match ps[i].1 {
        JVal::Arr(items) => {
            lemma_entries_of_append(items_under(ps.take(i), "tests"@), items);
        },
        _ => {},
    }
}

/// The text between the first start marker and the first end marker after
/// it, without surrounding whitespace.
pub open spec fn results_text(out: Seq<char>) -> Option<Seq<char>> {
    match find_from(out, RESULTS_START@, 0) {
        Some(a) => match find_from(out, RESULTS_END@, a + RESULTS_START@.len()) {
            Some(b) => Some(trim(out.subrange(a + RESULTS_START@.len(), b))),
            None => None,
        },
        None => None,
    }
}

/// What the runner's output reports, when its results can be read as a
/// JSON object.
pub open spec fn scan_output(out: Seq<char>) -> Scan {
    match results_text(out) {
        Some(j) => match parse_spec(j) {
            Some(JVal::Obj(ps)) => scan_of(ps),
            _ => blank_scan(),
        },
        None => blank_scan(),
    }
}

/// The failed tests, in order.
pub open spec fn failures_of(ts: Seq<Entry>) -> Seq<Failure>
    decreases ts.len(),
{
    if ts.len() == 0 {
        Seq::empty()
    } else {
        let r = failures_of(ts.drop_last());
        if ts.last().status == "fail"@ {
            r.push(Failure { name: ts.last().name, error: ts.last().error, duration: ts.last().duration })
        } else {
            r
        }
    }
}

/// The outcome that the runner's output gives. When it reports no test and
/// neither passes nor failures, the run counts as one failure that carries
/// the whole output.
pub open spec fn test_output_spec(out: Seq<char>) -> Outcome {
    let sc = scan_output(out);
    let none = sc.tests.len() == 0 && sc.fail == 0 && sc.pass == 0;
    Outcome {
        pass: sc.pass,
        fail: if none { 1 } else { sc.fail },
        skip: sc.skip,
        tests: sc.tests,
        failures: (if none {
            seq![Failure { name: "(runner output)"@, error: trim(out), duration: "0"@ }]
        } else {
            Seq::empty()
        }) + failures_of(sc.tests),
        total: sc.total,
    }
}

fn entry_from_pairs(pairs: &Vec<(String, Value)>) -> (r: TestEntry)
    ensures
        r@ == entry_of(model_pairs(pairs@)),
{
    proof {
        lemma_model_pairs_index(pairs@);
    }
    let ghost ps = model_pairs(pairs@);
    let mut e = TestEntry {
        name: String::new(),
        status: String::new(),
        error: String::new(),
        duration: String::from_str("0"),
    };
    proof {
        reveal_strlit("");
    }
    let mut i: usize = 0;
    while i < pairs.len()
        invariant
            i <= pairs@.len() == ps.len(),
            ps == model_pairs(pairs@),
            forall|j: int| 0 <= j < ps.len() ==> #[trigger] ps[j] == (pairs@[j].0@, model(pairs@[j].1)),
            e@ == entry_of(ps.take(i as int)),
        decreases pairs.len() - i,
    {
        proof {
            lemma_entry_of_step(ps, i as int);
        }
        assert(ps[i as int] == (pairs@[i as int].0@, model(pairs@[i as int].1)));
        let k = pairs[i].0.as_str();
        match &pairs[i].1 {
            Value::String(s) => {
                if str_eq(k, "name") {
                    e.name = s.clone();
                } else if str_eq(k, "status") {
                    e.status = s.clone();
                } else if str_eq(k, "error") {
                    e.error = s.clone();
                }
            },
            Value::Number(n) => {
                if str_eq(k, "duration") {
                    e.duration = n.clone();
                }
            },
            _ => {},
        }
        i = i + 1;
    }
    assert(ps.take(ps.len() as int) =~= ps);
    e
}

fn push_entries(tests: &mut Vec<TestEntry>, items: &Vec<Value>)
    ensures
        eviews(final(tests)@) == eviews(old(tests)@) + entries_of(model_items(items@)),
{
    proof {
        lemma_model_items_index(items@);
    }
    let ghost xs = model_items(items@);
    let mut i: usize = 0;
    assert(eviews(tests@) =~= eviews(old(tests)@) + entries_of(xs.take(0)));
    while i < items.len()
        invariant
            i <= items@.len() == xs.len(),
            xs == model_items(items@),
            forall|j: int| 0 <= j < xs.len() ==> #[trigger] xs[j] == model(items@[j]),
            eviews(tests@) == eviews(old(tests)@) + entries_of(xs.take(i as int)),
        decreases items.len() - i,
    {
        assert(xs.take(i + 1).drop_last() =~= xs.take(i as int));
        assert(xs[i as int] == model(items@[i as int]));
        match &items[i] {
            Value::Object(tp) => {
                let e = entry_from_pairs(tp);
                let ghost before = tests@;
                tests.push(e);
                assert(eviews(tests@) =~= eviews(before).push(e@));
            },
            _ => {},
        }
        i = i + 1;
    }
    assert(xs.take(xs.len() as int) =~= xs);
}

proof fn lemma_encode_len_subrange(s: Seq<char>, a: int, b: int)
    requires
        0 <= a <= b <= s.len(),
    ensures
        encode_utf8(s.subrange(a, b)).len() <= encode_utf8(s).len(),
{
    assert(s =~= s.take(a) + s.subrange(a, b) + s.skip(b));
    lemma_encode_concat(s.take(a) + s.subrange(a, b), s.skip(b));
    lemma_encode_concat(s.take(a), s.subrange(a, b));
}

/// Reads the test runner's output.
pub fn parse_test_output(output: &str) -> (r: TestResult)
    requires
        encode_utf8(output@).len() < usize::MAX,
    ensures
        r@ == test_output_spec(output@),
{
    let v = to_chars(output);
    let start = to_chars(RESULTS_START);
    let end = to_chars(RESULTS_END);
    let mut pass: u32 = 0;
    let mut fail: u32 = 0;
    let mut skip: u32 = 0;
    let mut total = String::from_str("0");
    let mut tests: Vec<TestEntry> = Vec::new();
    let ghost mut sc = blank_scan();
    assert(eviews(tests@) =~= Seq::<Entry>::empty());
    proof {
        lemma_find_from(v@, start@, 0);
    }
    match find_chars(v.as_slice(), start.as_slice(), 0) {
        Some(a) => {
            assert(occurs_at(v@, start@, a as int));
            assert(a + start@.len() <= v@.len());
            assert(v@.len() == v.len());
            let from = a + start.len();
            match find_chars(v.as_slice(), end.as_slice(), from) {
                Some(b) => {
                    proof {
                        lemma_find_from(v@, end@, from as int);
                        lemma_encode_len_subrange(v@, from as int, b as int);
                        lemma_encode_len_trim(v@.subrange(from as int, b as int));
                    }
                    let sub = string_of_range(v.as_slice(), from, b);
                    let piece = trim_chars(to_chars(sub.as_str()).as_slice());
                    let text = from_chars(piece.as_slice());
                    match parse(text.as_str()) {
                        Some(Value::Object(pairs)) => {
                            proof {
                                lemma_model_pairs_index(pairs@);
                            }
                            let ghost ps = model_pairs(pairs@);
                            let mut i: usize = 0;
                            while i < pairs.len()
                                invariant
                                    i <= pairs@.len() == ps.len(),
                                    ps == model_pairs(pairs@),
                                    forall|j: int| 0 <= j < ps.len() ==> #[trigger] ps[j] == (pairs@[j].0@, model(pairs@[j].1)),
                                    (Scan {
                                        pass: pass as nat,
                                        fail: fail as nat,
                                        skip: skip as nat,
                                        total: total@,
                                        tests: eviews(tests@),
                                    }) == scan_of(ps.take(i as int)),
                                decreases pairs.len() - i,
                            {
                                proof {
                                    lemma_scan_of_step(ps, i as int);
                                }
                                assert(ps[i as int] == (pairs@[i as int].0@, model(pairs@[i as int].1)));
                                let k = pairs[i].0.as_str();
                                match &pairs[i].1 {
                                    Value::Number(n) => {
                                        if str_eq(k, "pass") {
                                            pass = lexeme_to_u32(n.as_str());
                                        } else if str_eq(k, "fail") {
                                            fail = lexeme_to_u32(n.as_str());
                                        } else if str_eq(k, "skip") {
                                            skip = lexeme_to_u32(n.as_str());
                                        } else if str_eq(k, "totalTime") {
                                            total = n.clone();
                                        }
                                    },
                                    Value::Array(items) => {
                                        if str_eq(k, "tests") {
                                            push_entries(&mut tests, items);
                                        }
                                    },
                                    _ => {},
                                }
                                i = i + 1;
                            }
                            assert(ps.take(ps.len() as int) =~= ps);
                            proof {
                                sc = scan_of(ps);
                            }
                        },
                        _ => {},
                    }
                },
                None => {},
            }
        },
        None => {},
    }
    assert(sc == scan_output(output@));
    assert((Scan { pass: pass as nat, fail: fail as nat, skip: skip as nat, total: total@, tests: eviews(tests@) }) == sc);
    let mut failures: Vec<TestFailure> = Vec::new();
    if tests.len() == 0 && fail == 0 && pass == 0 {
        fail = 1;
        let t = trim_chars(v.as_slice());
        failures.push(TestFailure {
            name: String::from_str("(runner output)"),
            error: from_chars(t.as_slice()),
            duration: String::from_str("0"),
        });
    }
    let ghost head = fviews(failures@);
    let ghost ts = eviews(tests@);
    let mut i: usize = 0;
    while i < tests.len()
        invariant
            i <= tests@.len() == ts.len(),
            ts == eviews(tests@),
            fviews(failures@) == head + failures_of(ts.take(i as int)),
        decreases tests.len() - i,
    {
        assert(ts.take(i + 1).drop_last() =~= ts.take(i as int));
        assert(ts[i as int] == tests@[i as int]@);
        if str_eq(tests[i].status.as_str(), "fail") {
            let f = TestFailure {
                name: tests[i].name.clone(),
                error: tests[i].error.clone(),
                duration: tests[i].duration.clone(),
            };
            let ghost before = failures@;
            failures.push(f);
            assert(fviews(failures@) =~= fviews(before).push(f@));
        }
        i = i + 1;
    }
    assert(ts.take(ts.len() as int) =~= ts);
    let r = TestResult { pass, fail, skip, tests, failures, total_time: total };
    assert(r@.failures =~= test_output_spec(output@).failures);
    r
}


/// The outcome of a run that could not start: one failure that carries the
/// runner's error.
pub open spec fn runner_failed(e: Seq<char>) -> Outcome {
    Outcome {
        pass: 0,
        fail: 1,
        skip: 0,
        tests: Seq::empty(),
        failures: seq![Failure { name: "(runner)"@, error: e, duration: "0"@ }],
        total: "0"@,
    }
}

/// The outcome of a run: what its output reports, or, when the runner
/// could not be run, that failure.
pub fn test_outcome(ran: Result<String, String>) -> (r: TestResult)
    requires
        ran matches Ok(out) ==> encode_utf8(out@).len() < usize::MAX,
    ensures
        ran matches Ok(out) ==> r@ == test_output_spec(out@),
        ran matches Err(e) ==> r@ == runner_failed(e@),
{
    match ran {
        Ok(out) => parse_test_output(out.as_str()),
        Err(e) => {
            let f = TestFailure { name: String::from_str("(runner)"), error: e, duration: String::from_str("0") };
            let mut failures: Vec<TestFailure> = Vec::new();
            failures.push(f);
            let tests: Vec<TestEntry> = Vec::new();
            let r = TestResult { pass: 0, fail: 1, skip: 0, tests, failures, total_time: String::from_str("0") };
            assert(r@.tests =~= Seq::<Entry>::empty());
            assert(r@.failures =~= seq![f@]);
            r
        },
    }
}

impl Default for TestResult {
    fn default() -> (r: Self)
        ensures
            r@ == (Outcome { pass: 0, fail: 0, skip: 0, tests: Seq::empty(), failures: Seq::empty(), total: "0"@ }),
    {
        let r = TestResult {
            pass: 0,
            fail: 0,
            skip: 0,
            tests: Vec::new(),
            failures: Vec::new(),
            total_time: String::from_str("0"),
        };
        assert(r@.tests =~= Seq::<Entry>::empty());
        assert(r@.failures =~= Seq::<Failure>::empty());
        r
    }
}

/// The next decimal digit; other characters stay.
pub open spec fn next_digit(c: char) -> char {
    if '0' <= c <= '8' {
        (c as int + 1) as char
    } else {
        c
    }
}

/// `s` read as a decimal number plus one.
pub open spec fn inc_digits(s: Seq<char>) -> Seq<char>
    decreases s.len(),
{
    if s.len() == 0 {
        seq!['1']
    } else if s.last() == '9' {
        inc_digits(s.drop_last()).push('0')
    } else {
        s.drop_last().push(next_digit(s.last()))
    }
}

/// Whether some digit after the first is not zero.
pub open spec fn nonzero_after_first(s: Seq<char>) -> bool {
    exists|i: int| 0 < i < s.len() && s[i] != '0'
}

/// A number's text rounded to a whole number as `{:.0}` writes it: half
/// way rounds to the even neighbour, and the sign of a negative value stays.
pub open spec fn round_text(t: Seq<char>) -> Seq<char> {
    let neg = t.len() > 0 && t[0] == '-';
    let body = if neg { t.drop_first() } else { t };
    let d = dot_index(body);
    let w0 = strip_leading_zeros(body.take(d));
    let w = if w0.len() == 0 { seq!['0'] } else { w0 };
    let frac = if d < body.len() { body.skip(d + 1) } else { Seq::empty() };
    let odd = w.last() == '1' || w.last() == '3' || w.last() == '5' || w.last() == '7' || w.last() == '9';
    let up = frac.len() > 0 && (frac[0] > '5' || (frac[0] == '5' && (nonzero_after_first(frac) || odd)));
    (if neg { seq!['-'] } else { Seq::empty() }) + (if up { inc_digits(w) } else { w })
}

/// A number's text as `{}` writes it: the writer's canonical form, with the
/// sign kept on a negative zero.
pub open spec fn float_text(t: Seq<char>) -> Seq<char> {
    if t.len() > 0 && t[0] == '-' && canonical_number(t) == "0"@ {
        "-0"@
    } else {
        canonical_number(t)
    }
}

pub open spec fn zeros(n: nat) -> Seq<char> {
    Seq::new(n, |_i: int| '0')
}

proof fn lemma_inc_digits(s: Seq<char>, j: int)
    requires
        0 <= j <= s.len(),
        forall|i: int| j <= i < s.len() ==> s[i] == '9',
        j == 0 || s[j - 1] != '9',
    ensures
        inc_digits(s) == (if j == 0 {
            seq!['1']
        } else {
            s.take(j - 1).push(next_digit(s[j - 1]))
        }) + zeros((s.len() - j) as nat),
    decreases s.len(),
{
    if s.len() > j {
        lemma_inc_digits(s.drop_last(), j);
        if j > 0 {
            assert(s.drop_last().take(j - 1) =~= s.take(j - 1));
        }
        assert(zeros((s.len() - 1 - j) as nat).push('0') =~= zeros((s.len() - j) as nat));
    } else {
        if j > 0 {
            assert(s.drop_last() =~= s.take(j - 1));
        }
        assert(zeros(0) =~= Seq::<char>::empty());
    }
}

fn push_chars(out: &mut String, w: &Vec<char>, k0: usize, k1: usize)
    requires
        k0 <= k1 <= w@.len(),
    ensures
        final(out)@ == old(out)@ + w@.subrange(k0 as int, k1 as int),
{
    let mut k = k0;
    while k < k1
        invariant
            k0 <= k <= k1 <= w@.len(),
            out@ == old(out)@ + w@.subrange(k0 as int, k as int),
        decreases k1 - k,
    {
        push_char(out, w[k]);
        assert(w@.subrange(k0 as int, k + 1) =~= w@.subrange(k0 as int, k as int).push(w@[k as int]));
        k = k + 1;
    }
}

fn push_inc_digits(out: &mut String, w: &Vec<char>)
    ensures
        final(out)@ == old(out)@ + inc_digits(w@),
{
    let wl = w.len();
    let mut j = wl;
    while j > 0 && w[j - 1] == '9'
        invariant
            j <= wl == w@.len(),
            forall|i: int| j <= i < wl ==> w@[i] == '9',
        decreases j,
    {
        j = j - 1;
    }
    proof {
        lemma_inc_digits(w@, j as int);
    }
    if j == 0 {
        push_char(out, '1');
    } else {
        push_chars(out, w, 0, j - 1);
        let c = w[j - 1];
        let nc = if '0' <= c && c <= '8' {
            ((c as u8) + 1) as char
        } else {
            c
        };
        assert(nc == next_digit(c));
        push_char(out, nc);
        assert(w@.subrange(0, j - 1) =~= w@.take(j - 1));
    }
    let ghost mid = out@;
    let mut z = j;
    while z < wl
        invariant
            j <= z <= wl,
            out@ == mid + zeros((z - j) as nat),
        decreases wl - z,
    {
        push_char(out, '0');
        assert(zeros((z - j) as nat).push('0') =~= zeros((z + 1 - j) as nat));
        z = z + 1;
    }
    proof {
        if j == 0 {
            assert(out@ =~= old(out)@ + (seq!['1'] + zeros((wl - j) as nat)));
        } else {
            assert(out@ =~= old(out)@ + (w@.take(j - 1).push(next_digit(w@[j - 1])) + zeros((wl - j) as nat)));
        }
    }
}

/// Whether the fraction `v[fs..]` rounds the whole part up.
fn rounds_up(v: &Vec<char>, fs: usize, odd: bool) -> (up: bool)
    requires
        fs <= v@.len(),
    ensures
        up == ({
            let frac = v@.subrange(fs as int, v@.len() as int);
            frac.len() > 0 && (frac[0] > '5' || (frac[0] == '5' && (nonzero_after_first(frac) || odd)))
        }),
{
    let n = v.len();
    let ghost frac = v@.subrange(fs as int, n as int);
    if fs >= n {
        return false;
    }
    let f0 = v[fs];
    assert(frac[0] == f0);
    if f0 > '5' {
        return true;
    }
    if f0 != '5' {
        return false;
    }
    if odd {
        return true;
    }
    let mut q = fs + 1;
    while q < n
        invariant
            fs + 1 <= q <= n == v@.len(),
            frac == v@.subrange(fs as int, n as int),
            frac.len() > 0 && frac[0] == '5',
            forall|i: int| 0 < i < q - fs ==> frac[i] == '0',
        decreases n - q,
    {
        if v[q] != '0' {
            assert(frac[q - fs] == v@[q as int]);
            assert(frac[q - fs] != '0');
            assert(nonzero_after_first(frac));
            return true;
        }
        q = q + 1;
    }
    false
}

fn push_rounded(out: &mut String, t: &str)
    ensures
        final(out)@ == old(out)@ + round_text(t@),
{
    let v = to_chars(t);
    let n = v.len();
    let neg = n > 0 && v[0] == '-';
    let start: usize = if neg { 1 } else { 0 };
    let ghost body = if neg { v@.drop_first() } else { v@ };
    assert(body =~= v@.subrange(start as int, n as int));
    let d = find_dot(&v, start);
    let w = skip_zeros(&v, start, d);
    let fs: usize = if d < n { d + 1 } else { n };
    let mut whole: Vec<char> = Vec::new();
    if w == d {
        whole.push('0');
        assert(whole@ =~= seq!['0']);
    } else {
        let mut k = w;
        while k < d
            invariant
                w <= k <= d <= v@.len(),
                whole@ == v@.subrange(w as int, k as int),
            decreases d - k,
        {
            whole.push(v[k]);
            assert(v@.subrange(w as int, k + 1) =~= v@.subrange(w as int, k as int).push(v@[k as int]));
            k = k + 1;
        }
    }
    let ghost frac = if d - start < body.len() { body.skip(d - start + 1) } else { Seq::<char>::empty() };
    let ghost w0 = strip_leading_zeros(body.take(dot_index(body)));
    proof {
        assert(frac =~= v@.subrange(fs as int, n as int));
        assert(body.take(d - start) =~= v@.subrange(start as int, d as int));
        assert(dot_index(body) == d - start);
        assert(whole@ == (if w0.len() == 0 { seq!['0'] } else { w0 }));
    }
    let last = whole[whole.len() - 1];
    let odd = last == '1' || last == '3' || last == '5' || last == '7' || last == '9';
    let up = rounds_up(&v, fs, odd);
    assert(up == (frac.len() > 0 && (frac[0] > '5' || (frac[0] == '5' && (nonzero_after_first(frac) || odd)))));
    let ghost o = out@;
    if neg {
        push_char(out, '-');
    }
    if up {
        push_inc_digits(out, &whole);
    } else {
        let wl = whole.len();
        push_chars(out, &whole, 0, wl);
        assert(whole@.subrange(0, wl as int) =~= whole@);
    }
    assert(out@ =~= o + round_text(v@));
}

fn push_float_text(out: &mut String, t: &str)
    ensures
        final(out)@ == old(out)@ + float_text(t@),
{
    let mut c = String::new();
    push_number(&mut c, t);
    proof {
        reveal_strlit("");
    }
    assert(c@ == canonical_number(t@));
    let v = to_chars(t);
    if v.len() > 0 && v[0] == '-' && str_eq(c.as_str(), "0") {
        push_str(out, "-0");
    } else {
        push_str(out, c.as_str());
    }
}


/// A test as a JSON object; an empty error is written as `null`.
pub open spec fn entry_json(e: Entry) -> Seq<char> {
    "{\"name\":\""@ + quoted(e.name, false) + "\",\"status\":\""@ + e.status + "\",\"duration\":"@ + float_text(
        e.duration,
    ) + ",\"error\":"@ + (if e.error.len() == 0 {
        "null"@
    } else {
        "\""@ + quoted(e.error, false) + "\""@
    }) + "}"@
}

/// The tests as JSON objects separated by commas.
pub open spec fn entries_json(ts: Seq<Entry>) -> Seq<char>
    decreases ts.len(),
{
    if ts.len() == 0 {
        Seq::empty()
    } else if ts.len() == 1 {
        entry_json(ts[0])
    } else {
        entries_json(ts.drop_last()) + ","@ + entry_json(ts.last())
    }
}

/// The outcome as one JSON object.
pub open spec fn outcome_json(o: Outcome) -> Seq<char> {
    "{\"pass\":"@ + decimal(o.pass) + ",\"fail\":"@ + decimal(o.fail) + ",\"skip\":"@ + decimal(o.skip)
        + ",\"totalTime\":"@ + float_text(o.total) + ",\"tests\":["@ + entries_json(o.tests) + "]}"@
}

/// Two lines for each failure: its name and its error.
pub open spec fn failure_lines(fs: Seq<Failure>) -> Seq<Seq<char>>
    decreases fs.len(),
{
    if fs.len() == 0 {
        Seq::empty()
    } else {
        failure_lines(fs.drop_last()) + seq!["  ✗ "@ + fs.last().name, "    "@ + fs.last().error]
    }
}

/// The line that sums a run up.
pub open spec fn summary_line(o: Outcome) -> Seq<char> {
    (if o.fail == 0 {
        "✓"@
    } else {
        "✗"@
    }) + " "@ + decimal(o.pass + o.fail + o.skip) + " test(s): "@ + decimal(o.pass) + " passed, "@ + decimal(
        o.fail,
    ) + " failed, "@ + decimal(o.skip) + " skipped ("@ + round_text(o.total) + "ms)"@
}

/// The lines that report a test run: the JSON object, or a blank line, the
/// summary, the failures after a blank line, and a blank line.
pub open spec fn test_report_spec(o: Outcome, json: bool) -> Seq<Seq<char>> {
    if json {
        seq![outcome_json(o)]
    } else {
        seq![Seq::empty(), summary_line(o)] + (if o.failures.len() > 0 {
            seq![Seq::empty()] + failure_lines(o.failures)
        } else {
            Seq::empty()
        }) + seq![Seq::empty()]
    }
}

fn push_entry_json(out: &mut String, e: &TestEntry)
    ensures
        final(out)@ == old(out)@ + entry_json(e@),
{
    push_str(out, "{\"name\":\"");
    push_quoted(out, e.name.as_str(), false);
    push_str(out, "\",\"status\":\"");
    push_str(out, e.status.as_str());
    push_str(out, "\",\"duration\":");
    push_float_text(out, e.duration.as_str());
    push_str(out, ",\"error\":");
    let ghost mid = out@;
    if e.error.as_str().unicode_len() == 0 {
        push_str(out, "null");
        assert(e.error@.len() == 0);
    } else {
        push_str(out, "\"");
        push_quoted(out, e.error.as_str(), false);
        push_str(out, "\"");
        assert(e.error@.len() != 0);
    }
    push_str(out, "}");
    assert(out@ =~= old(out)@ + entry_json(e@));
}

/// The lines of the test report.
pub fn test_report(result: &TestResult, json: bool) -> (r: Vec<String>)
    requires
        !json ==> result.pass + result.fail + result.skip <= u32::MAX,
    ensures
        views(r@) == test_report_spec(result@, json),
{
    let ghost o = result@;
    let mut lines: Vec<String> = Vec::new();
    if json {
        let mut s = String::from_str("{\"pass\":");
        push_decimal(&mut s, result.pass as u64);
        push_str(&mut s, ",\"fail\":");
        push_decimal(&mut s, result.fail as u64);
        push_str(&mut s, ",\"skip\":");
        push_decimal(&mut s, result.skip as u64);
        push_str(&mut s, ",\"totalTime\":");
        push_float_text(&mut s, result.total_time.as_str());
        push_str(&mut s, ",\"tests\":[");
        let ghost head = s@;
        let ts = &result.tests;
        let ghost tv = eviews(ts@);
        let mut i: usize = 0;
        while i < ts.len()
            invariant
                i <= ts@.len() == tv.len(),
                tv == eviews(ts@),
                s@ == head + entries_json(tv.take(i as int)),
            decreases ts.len() - i,
        {
            assert(tv.take(i + 1).drop_last() =~= tv.take(i as int));
            assert(tv[i as int] == ts@[i as int]@);
            if i > 0 {
                push_str(&mut s, ",");
            }
            push_entry_json(&mut s, &ts[i]);
            proof {
                if i == 0 {
                    assert(tv.take(1) =~= seq![tv[0]]);
                }
            }
            assert(s@ =~= head + entries_json(tv.take(i + 1)));
            i = i + 1;
        }
        assert(tv.take(tv.len() as int) =~= tv);
        push_str(&mut s, "]}");
        assert(s@ =~= outcome_json(o));
        lines.push(s);
        assert(views(lines@) =~= seq![s@]);
        return lines;
    }
    lines.push(String::new());
    let mut sum = String::new();
    if result.fail == 0 {
        push_str(&mut sum, "✓");
    } else {
        push_str(&mut sum, "✗");
    }
    push_str(&mut sum, " ");
    push_decimal(&mut sum, result.pass as u64 + result.fail as u64 + result.skip as u64);
    push_str(&mut sum, " test(s): ");
    push_decimal(&mut sum, result.pass as u64);
    push_str(&mut sum, " passed, ");
    push_decimal(&mut sum, result.fail as u64);
    push_str(&mut sum, " failed, ");
    push_decimal(&mut sum, result.skip as u64);
    push_str(&mut sum, " skipped (");
    push_rounded(&mut sum, result.total_time.as_str());
    push_str(&mut sum, "ms)");
    assert(sum@ =~= summary_line(o));
    lines.push(sum);
    assert(views(lines@) =~= seq![Seq::<char>::empty(), summary_line(o)]);
    let ghost top = views(lines@);
    let fs = &result.failures;
    if fs.len() > 0 {
        lines.push(String::new());
        let ghost top2 = views(lines@);
        assert(top2 =~= top + seq![Seq::<char>::empty()]);
        let ghost fv = fviews(fs@);
        let mut i: usize = 0;
        while i < fs.len()
            invariant
                i <= fs@.len() == fv.len(),
                fv == fviews(fs@),
                views(lines@) == top2 + failure_lines(fv.take(i as int)),
            decreases fs.len() - i,
        {
            assert(fv.take(i + 1).drop_last() =~= fv.take(i as int));
            assert(fv[i as int] == fs@[i as int]@);
            let mut a = String::from_str("  ✗ ");
            push_str(&mut a, fs[i].name.as_str());
            let mut b = String::from_str("    ");
            push_str(&mut b, fs[i].error.as_str());
            let ghost before = views(lines@);
            lines.push(a);
            lines.push(b);
            assert(views(lines@) =~= before + seq![a@, b@]);
            i = i + 1;
        }
        assert(fv.take(fv.len() as int) =~= fv);
    } else {
        assert(o.failures.len() == 0);
    }
    let ghost before = views(lines@);
    lines.push(String::new());
    assert(views(lines@) =~= before.push(Seq::<char>::empty()));
    assert(views(lines@) =~= test_report_spec(o, json));
    lines
}

/// The test runner program up to the test files.
pub const TEST_RUNNER_HEAD: &'static str = r###"
// Test runner for GlassHouse CLI
var testFiles = "###;

/// The test runner program between the files and the filter.
pub const TEST_RUNNER_FILTER: &'static str = r###";
var filterPattern = "###;

/// The test runner program between the filter and the verbose flag.
pub const TEST_RUNNER_VERBOSE: &'static str = r###";
var verbose = "###;

/// The test runner program between the verbose flag and the flag that says
/// whether the project has its own test runner module.
pub const TEST_RUNNER_HAS_RUNNER: &'static str = r###";
var hasTestRunner = "###;

/// The rest of the test runner program: the harness, the run of each file,
/// and the results printed between the markers.
pub const TEST_RUNNER_TAIL: &'static str = r###";

// Simple test harness
var results = {
    pass: 0,
    fail: 0,
    skip: 0,
    tests: [],
    startTime: Date.now()
};

function assert(condition, message, testName) {
    if (!condition) {
        throw new Error(message || 'Assertion failed');
    }
}

function assertEqual(actual, expected, message, testName) {
    if (actual !== expected) {
        throw new Error(
            (message || 'Assertion failed') +
            ': expected ' + JSON.stringify(expected) +
            ' but got ' + JSON.stringify(actual)
        );
    }
}

function assertDeepEqual(actual, expected, message, testName) {
    var a = JSON.stringify(actual);
    var b = JSON.stringify(expected);
    if (a !== b) {
        throw new Error(
            (message || 'Deep assertion failed') +
            ': expected ' + b +
            ' but got ' + a
        );
    }
}

// Make test API available globally so test files can use them
var test = function(name, fn) {
    if (filterPattern && name.indexOf(filterPattern) === -1) {
        results.skip++;
        results.tests.push({
            name: name,
            status: 'skip',
            duration: 0,
            error: null
        });
        return;
    }

    var t0 = Date.now();
    try {
        fn();
        var dt = Date.now() - t0;
        results.pass++;
        results.tests.push({
            name: name,
            status: 'pass',
            duration: dt,
            error: null
        });
        if (verbose) print('  \u2713 ' + name + ' (' + dt + 'ms)');
    } catch (e) {
        var dt = Date.now() - t0;
        results.fail++;
        results.tests.push({
            name: name,
            status: 'fail',
            duration: dt,
            error: e.message || String(e)
        });
        if (verbose) print('  \u2717 ' + name + ' (' + dt + 'ms)');
        print('    Error: ' + (e.message || String(e)));
    }
};

// Run each test file
for (var i = 0; i < testFiles.length; i++) {
    var tf = testFiles[i];
    if (verbose) print('\n  File: ' + tf.file);

    try {
        // Evaluate the test file source in a scoped context
        var testFn = new Function(
            'test', 'assert', 'assertEqual', 'assertDeepEqual',
            'GlassHouse', 'console',
            tf.source
        );
        testFn(test, assert, assertEqual, assertDeepEqual, GlassHouse, console);
    } catch (e) {
        results.fail++;
        results.tests.push({
            name: tf.file + ' (load error)',
            status: 'fail',
            duration: 0,
            error: e.message || String(e)
        });
        if (verbose) print('  \u2717 ' + tf.file + ' — load error: ' + (e.message || String(e)));
    }
}

results.totalTime = Date.now() - results.startTime;

// Output results as JSON
print('__GLAS_TEST_RESULTS__');
print(JSON.stringify(results));
print('__GLAS_END__');
"###;

/// The filter as a JavaScript value: a quoted string, or `null`.
pub open spec fn filter_expr(f: Option<Seq<char>>) -> Seq<char> {
    match f {
        Some(p) => "\""@ + quoted(p, false) + "\""@,
        None => "null"@,
    }
}

/// The test runner program for `files` (each a path and its text).
pub open spec fn test_runner_spec(
    root: Seq<char>,
    fs: Seq<(Seq<char>, Seq<char>)>,
    filter: Option<Seq<char>>,
    verbose: bool,
    has_runner: bool,
) -> Seq<char> {
    TEST_RUNNER_HEAD@ + sources_json(root, fs) + TEST_RUNNER_FILTER@ + filter_expr(filter) + TEST_RUNNER_VERBOSE@
        + bool_text(verbose) + TEST_RUNNER_HAS_RUNNER@ + bool_text(has_runner) + TEST_RUNNER_TAIL@
}

/// The test runner program.
pub fn test_runner_code(
    root: &str,
    files: &[(String, String)],
    filter: &Option<String>,
    verbose: bool,
    has_runner: bool,
) -> (r: String)
    ensures
        r@ == test_runner_spec(root@, file_views(files@), opt_view(*filter), verbose, has_runner),
{
    let mut s = String::from_str(TEST_RUNNER_HEAD);
    push_sources_json(&mut s, root, files);
    push_str(&mut s, TEST_RUNNER_FILTER);
    match filter {
        Some(f) => {
            push_str(&mut s, "\"");
            push_quoted(&mut s, f.as_str(), false);
            push_str(&mut s, "\"");
        },
        None => {
            push_str(&mut s, "null");
        },
    }
    push_str(&mut s, TEST_RUNNER_VERBOSE);
    if verbose {
        push_str(&mut s, "true");
    } else {
        push_str(&mut s, "false");
    }
    push_str(&mut s, TEST_RUNNER_HAS_RUNNER);
    if has_runner {
        push_str(&mut s, "true");
    } else {
        push_str(&mut s, "false");
    }
    push_str(&mut s, TEST_RUNNER_TAIL);
    assert(s@ =~= test_runner_spec(root@, file_views(files@), opt_view(*filter), verbose, has_runner));
    s
}

/// Whether `p` is a script: `js`, `ts` or `tsx`.
pub open spec fn is_script(p: Seq<char>) -> bool {
    extension_spec(p) == Some("js"@) || extension_spec(p) == Some("ts"@) || extension_spec(p) == Some("tsx"@)
}

/// The scripts among `ps`, in order.
pub open spec fn scripts_only(ps: Seq<Seq<char>>) -> Seq<Seq<char>>
    decreases ps.len(),
{
    if ps.len() == 0 {
        Seq::empty()
    } else if is_script(ps.last()) {
        scripts_only(ps.drop_last()).push(ps.last())
    } else {
        scripts_only(ps.drop_last())
    }
}

/// The scripts among the files found, in the order found: the files that
/// the watch loop looks at.
pub fn watch_files(files: &[String]) -> (r: Vec<String>)
    ensures
        views(r@) == scripts_only(views(files@)),
{
    let ghost ps = views(files@);
    let mut out: Vec<String> = Vec::new();
    let mut i: usize = 0;
    while i < files.len()
        invariant
            i <= files@.len() == ps.len(),
            ps == views(files@),
            views(out@) == scripts_only(ps.take(i as int)),
        decreases files.len() - i,
    {
        assert(ps.take(i + 1).drop_last() =~= ps.take(i as int));
        assert(ps[i as int] == files@[i as int]@);
        let p = files[i].as_str();
        if ext_is(p, "js") || ext_is(p, "ts") || ext_is(p, "tsx") {
            let ghost before = out@;
            out.push(files[i].clone());
            assert(views(out@) =~= views(before).push(files@[i as int]@));
        }
        i = i + 1;
    }
    assert(ps.take(ps.len() as int) =~= ps);
    out
}

/// The test files: the scripts found under `tests/`, in path order.
pub fn test_files(files: &[String]) -> (r: Vec<String>)
    ensures
        views(r@) == scripts_only(views(files@)).sort_by(|a: Seq<char>, b: Seq<char>| path_le(a, b)),
{
    let found = watch_files(files);
    sort_paths(&found)
}

/// What a run prints when there is nothing to test: without a `tests/`
/// directory, or without test files in it.
pub fn nothing_to_test(json: bool, has_dir: bool) -> (r: &'static str)
    ensures
        json ==> r@ == "{\"pass\":0,\"fail\":0,\"skip\":0,\"tests\":[]}"@,
        !json && !has_dir ==> r@ == "No tests/ directory found. Create tests/*.js or tests/*.ts files."@,
        !json && has_dir ==> r@ == "No test files found in tests/"@,
{
    if json {
        "{\"pass\":0,\"fail\":0,\"skip\":0,\"tests\":[]}"
    } else if !has_dir {
        "No tests/ directory found. Create tests/*.js or tests/*.ts files."
    } else {
        "No test files found in tests/"
    }
}

} // verus!
