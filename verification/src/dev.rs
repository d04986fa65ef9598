//! The dev server's state and the decisions of its watcher: the cache of
//! compiled TypeScript, the errors shown in the browser, and what a look at
//! the project's files changes.

use vstd::prelude::*;
use crate::text::{str_eq, push_str, quoted, push_quoted, views};
use crate::num::{decimal, push_decimal};
use crate::path::{extension_spec, ext_is};
use crate::lint::{forbidden_js, forbidden_js_spec, vviews, Violation};

verus! {

/// The map that a list of distinct keys with values stands for.
pub open spec fn assoc_map<V>(ps: Seq<(Seq<char>, V)>) -> Map<Seq<char>, V>
    decreases ps.len(),
{
    if ps.len() == 0 {
        Map::empty()
    } else {
        assoc_map(ps.drop_last()).insert(ps.last().0, ps.last().1)
    }
}

pub open spec fn pair_views(v: Seq<(String, String)>) -> Seq<(Seq<char>, Seq<char>)> {
    v.map_values(|p: (String, String)| (p.0@, p.1@))
}

pub open spec fn distinct_keys<V>(ps: Seq<(Seq<char>, V)>) -> bool {
    forall|i: int, j: int| 0 <= i < j < ps.len() ==> ps[i].0 != ps[j].0
}

proof fn lemma_assoc_map<V>(ps: Seq<(Seq<char>, V)>)
    requires
        distinct_keys(ps),
    ensures
        forall|k: Seq<char>| #[trigger] assoc_map(ps).contains_key(k) <==> exists|i: int| 0 <= i < ps.len() && ps[i].0 == k,
        forall|i: int| 0 <= i < ps.len() ==> assoc_map(ps)[#[trigger] ps[i].0] == ps[i].1,
    decreases ps.len(),
{
    if ps.len() > 0 {
        let q = ps.drop_last();
        assert(distinct_keys(q));
        lemma_assoc_map(q);
        assert forall|k: Seq<char>| #[trigger] assoc_map(ps).contains_key(k) <==> exists|i: int| 0 <= i < ps.len() && ps[i].0 == k by {
            if assoc_map(ps).contains_key(k) {
                if k == ps.last().0 {
                    assert(ps[ps.len() - 1].0 == k);
                } else {
                    assert(assoc_map(q).contains_key(k));
                    let i = choose|i: int| 0 <= i < q.len() && q[i].0 == k;
                    assert(q[i] == ps[i]);
                }
            }
            if exists|i: int| 0 <= i < ps.len() && ps[i].0 == k {
                let i = choose|i: int| 0 <= i < ps.len() && ps[i].0 == k;
                if i < q.len() {
                    assert(q[i] == ps[i]);
                    assert(assoc_map(q).contains_key(k));
                }
            }
        }
        assert forall|i: int| 0 <= i < ps.len() implies assoc_map(ps)[#[trigger] ps[i].0] == ps[i].1 by {
            if i < q.len() {
                assert(q[i] == ps[i]);
                assert(ps[i].0 != ps.last().0);
                assert(assoc_map(q)[q[i].0] == q[i].1);
            }
        }
    }
}

/// The dev server's state: the JavaScript compiled from each TypeScript
/// file, the errors to show in the browser, and the TypeScript compiler's
/// modules once loaded.
pub struct DevState {
    cache: Vec<(String, String)>,
    errors: Vec<String>,
    ts_modules: Option<Vec<(String, String)>>,
}

impl DevState {
    /// No file is cached twice.
    pub closed spec fn wf(&self) -> bool {
        distinct_keys(pair_views(self.cache@))
    }

    /// The compiled JavaScript of each file.
    pub closed spec fn compiled(&self) -> Map<Seq<char>, Seq<char>> {
        assoc_map(pair_views(self.cache@))
    }

    /// The errors to show in the browser, in order.
    pub closed spec fn error_list(&self) -> Seq<Seq<char>> {
        views(self.errors@)
    }

    /// The compiler's modules, once loaded.
    pub closed spec fn modules(&self) -> Option<Seq<(Seq<char>, Seq<char>)>> {
        match self.ts_modules {
            Some(m) => Some(pair_views(m@)),
            None => None,
        }
    }

    /// A state with nothing compiled, no errors and no modules.
    pub fn new() -> (r: DevState)
        ensures
            r.wf(),
            r.compiled() == Map::<Seq<char>, Seq<char>>::empty(),
            r.error_list() == Seq::<Seq<char>>::empty(),
            r.modules() is None,
    {
        let r = DevState { cache: Vec::new(), errors: Vec::new(), ts_modules: None };
        assert(pair_views(r.cache@) =~= Seq::<(Seq<char>, Seq<char>)>::empty());
        assert(views(r.errors@) =~= Seq::<Seq<char>>::empty());
        r
    }

    fn position(&self, path: &str) -> (r: Option<usize>)
        ensures
            match r {
                Some(i) => i < self.cache@.len() && self.cache@[i as int].0@ == path@,
                None => forall|i: int| 0 <= i < self.cache@.len() ==> self.cache@[i].0@ != path@,
            },
    {
        let mut i: usize = 0;
        while i < self.cache.len()
            invariant
                i <= self.cache@.len(),
                forall|j: int| 0 <= j < i ==> self.cache@[j].0@ != path@,
            decreases self.cache.len() - i,
        {
            if str_eq(self.cache[i].0.as_str(), path) {
                return Some(i);
            }
            i = i + 1;
        }
        None
    }

    /// The JavaScript compiled from `path`, if it is cached.
    pub fn cached(&self, path: &str) -> (r: Option<String>)
        requires
            self.wf(),
        ensures
            match r {
                Some(js) => self.compiled().contains_key(path@) && self.compiled()[path@] == js@,
                None => !self.compiled().contains_key(path@),
            },
    {
        proof {
            lemma_assoc_map(pair_views(self.cache@));
        }
        match self.position(path) {
            Some(i) => {
                assert(pair_views(self.cache@)[i as int].0 == path@);
                Some(self.cache[i].1.clone())
            },
            None => {
                proof {
                    if self.compiled().contains_key(path@) {
                        let j = choose|j: int| 0 <= j < pair_views(self.cache@).len() && pair_views(self.cache@)[j].0 == path@;
                        assert(self.cache@[j].0@ == path@);
                    }
                }
                None
            },
        }
    }

    /// Caches the JavaScript compiled from `path`.
    pub fn store(&mut self, path: &str, js: String)
        requires
            old(self).wf(),
        ensures
            final(self).wf(),
            final(self).compiled() == old(self).compiled().insert(path@, js@),
            final(self).error_list() == old(self).error_list(),
            final(self).modules() == old(self).modules(),
    {
        proof {
            lemma_assoc_map(pair_views(self.cache@));
        }
        let ghost before = pair_views(self.cache@);
        let ghost m0 = self.compiled();
        match self.position(path) {
            Some(i) => {
                let key = String::from_str(path);
                self.cache.set(i, (key, js));
                proof {
                    let after = pair_views(self.cache@);
                    assert(after =~= before.update(i as int, (path@, js@)));
                    assert(before[i as int].0 == path@);
                    assert forall|x: int| 0 <= x < after.len() implies #[trigger] after[x].0 == before[x].0 by {}
                    assert(distinct_keys(after)) by {
                        assert forall|x: int, y: int| 0 <= x < y < after.len() implies after[x].0 != after[y].0 by {
                            assert(after[x].0 == before[x].0);
                            assert(after[y].0 == before[y].0);
                        }
                    }
                    lemma_assoc_map(after);
                    assert(m0.contains_key(path@)) by {
                        assert(before[i as int].0 == path@);
                    }
                    assert forall|k: Seq<char>| #[trigger] assoc_map(after).contains_key(k) == m0.insert(path@, js@).contains_key(k) by {
                        if m0.contains_key(k) {
                            let j = choose|j: int| 0 <= j < before.len() && before[j].0 == k;
                            assert(after[j].0 == k);
                        }
                        if assoc_map(after).contains_key(k) {
                            let j = choose|j: int| 0 <= j < after.len() && after[j].0 == k;
                            assert(before[j].0 == k);
                        }
                    }
                    assert forall|k: Seq<char>| #[trigger] assoc_map(after).contains_key(k) implies assoc_map(after)[k] == m0.insert(path@, js@)[k] by {
                        let j = choose|j: int| 0 <= j < after.len() && after[j].0 == k;
                        if j != i {
                            assert(before[j].0 == k);
                            assert(k != path@);
                        } else {
                            assert(after[j] == (path@, js@));
                        }
                    }
                    assert(assoc_map(after) =~= m0.insert(path@, js@));
                }
            },
            None => {
                let key = String::from_str(path);
                self.cache.push((key, js));
                proof {
                    let after = pair_views(self.cache@);
                    assert(after =~= before.push((path@, js@)));
                    assert(after.drop_last() =~= before);
                }
            },
        }
    }

    /// Drops the cached JavaScript of `path`.
    pub fn forget(&mut self, path: &str)
        requires
            old(self).wf(),
        ensures
            final(self).wf(),
            final(self).compiled() == old(self).compiled().remove(path@),
            final(self).error_list() == old(self).error_list(),
            final(self).modules() == old(self).modules(),
    {
        proof {
            lemma_assoc_map(pair_views(self.cache@));
        }
        let ghost before = pair_views(self.cache@);
        let ghost m0 = self.compiled();
        match self.position(path) {
            Some(i) => {
                self.cache.remove(i);
                proof {
                    let after = pair_views(self.cache@);
                    assert(after =~= before.remove(i as int));
                    assert(before[i as int].0 == path@);
                    assert(distinct_keys(after)) by {
                        assert forall|x: int, y: int| 0 <= x < y < after.len() implies after[x].0 != after[y].0 by {
                            let x2 = if x < i { x } else { x + 1 };
                            let y2 = if y < i { y } else { y + 1 };
                            assert(after[x] == before[x2]);
                            assert(after[y] == before[y2]);
                        }
                    }
                    lemma_assoc_map(after);
                    assert forall|k: Seq<char>| #[trigger] assoc_map(after).contains_key(k) == m0.remove(path@).contains_key(k) by {
                        if m0.remove(path@).contains_key(k) {
                            assert(m0.contains_key(k));
                            let j = choose|j: int| 0 <= j < before.len() && before[j].0 == k;
                            assert(j != i);
                            if j < i {
                                assert(after[j].0 == k);
                            } else {
                                assert(after[j - 1].0 == k);
                            }
                        }
                        if assoc_map(after).contains_key(k) {
                            let j = choose|j: int| 0 <= j < after.len() && after[j].0 == k;
                            let j2 = if j < i { j } else { j + 1 };
                            assert(before[j2].0 == k);
                            assert(j2 != i);
                            assert(k != path@) by {
                                if j2 < i {
                                    assert(before[j2].0 != before[i as int].0);
                                } else {
                                    assert(before[i as int].0 != before[j2].0);
                                }
                            }
                            assert(m0.contains_key(k));
                        }
                    }
                    assert forall|k: Seq<char>| #[trigger] assoc_map(after).contains_key(k) implies assoc_map(after)[k] == m0.remove(path@)[k] by {
                        let j = choose|j: int| 0 <= j < after.len() && after[j].0 == k;
                        let j2 = if j < i { j } else { j + 1 };
                        assert(before[j2] == after[j]);
                    }
                    assert(assoc_map(after) =~= m0.remove(path@));
                }
            },
            None => {
                proof {
                    assert(!m0.contains_key(path@)) by {
                        if m0.contains_key(path@) {
                            let j = choose|j: int| 0 <= j < before.len() && before[j].0 == path@;
                            assert(self.cache@[j].0@ == path@);
                        }
                    }
                    assert(m0.remove(path@) =~= m0);
                }
            },
        }
    }

    /// The errors to show.
    pub fn errors(&self) -> (r: &Vec<String>)
        ensures
            views(r@) == self.error_list(),
    {
        &self.errors
    }

    /// Replaces the errors to show.
    pub fn set_errors(&mut self, errors: Vec<String>)
        requires
            old(self).wf(),
        ensures
            final(self).wf(),
            final(self).error_list() == views(errors@),
            final(self).compiled() == old(self).compiled(),
            final(self).modules() == old(self).modules(),
    {
        self.errors = errors;
    }

    /// Adds an error to show.
    pub fn push_error(&mut self, e: String)
        requires
            old(self).wf(),
        ensures
            final(self).wf(),
            final(self).error_list() == old(self).error_list().push(e@),
            final(self).compiled() == old(self).compiled(),
            final(self).modules() == old(self).modules(),
    {
        let ghost before = self.errors@;
        self.errors.push(e);
        assert(views(self.errors@) =~= views(before).push(e@));
    }

    /// The compiler's modules, once loaded.
    pub fn ts_modules(&self) -> (r: Option<&Vec<(String, String)>>)
        ensures
            match r {
                Some(m) => self.modules() == Some(pair_views(m@)),
                None => self.modules() is None,
            },
    {
        match &self.ts_modules {
            Some(m) => Some(m),
            None => None,
        }
    }

    /// Keeps the compiler's modules.
    pub fn set_ts_modules(&mut self, modules: Vec<(String, String)>)
        requires
            old(self).wf(),
        ensures
            final(self).wf(),
            final(self).modules() == Some(pair_views(modules@)),
            final(self).compiled() == old(self).compiled(),
            final(self).error_list() == old(self).error_list(),
    {
        self.ts_modules = Some(modules);
    }
}


pub open spec fn size_views(v: Seq<(String, u64)>) -> Seq<(Seq<char>, u64)> {
    v.map_values(|p: (String, u64)| (p.0@, p.1))
}

/// The last size seen of each watched file.
pub struct SizeTable {
    entries: Vec<(String, u64)>,
}

impl SizeTable {
    /// No file is recorded twice.
    pub closed spec fn wf(&self) -> bool {
        distinct_keys(size_views(self.entries@))
    }

    pub closed spec fn sizes(&self) -> Map<Seq<char>, u64> {
        assoc_map(size_views(self.entries@))
    }

    pub fn new() -> (r: SizeTable)
        ensures
            r.wf(),
            r.sizes() == Map::<Seq<char>, u64>::empty(),
    {
        let r = SizeTable { entries: Vec::new() };
        assert(size_views(r.entries@) =~= Seq::<(Seq<char>, u64)>::empty());
        r
    }

    fn position(&self, path: &str) -> (r: Option<usize>)
        ensures
            match r {
                Some(i) => i < self.entries@.len() && self.entries@[i as int].0@ == path@,
                None => forall|i: int| 0 <= i < self.entries@.len() ==> self.entries@[i].0@ != path@,
            },
    {
        let mut i: usize = 0;
        while i < self.entries.len()
            invariant
                i <= self.entries@.len(),
                forall|j: int| 0 <= j < i ==> self.entries@[j].0@ != path@,
            decreases self.entries.len() - i,
        {
            if str_eq(self.entries[i].0.as_str(), path) {
                return Some(i);
            }
            i = i + 1;
        }
        None
    }

    /// The size recorded for `path`.
    pub fn get(&self, path: &str) -> (r: Option<u64>)
        requires
            self.wf(),
        ensures
            match r {
                Some(s) => self.sizes().contains_key(path@) && self.sizes()[path@] == s,
                None => !self.sizes().contains_key(path@),
            },
    {
        proof {
            lemma_assoc_map(size_views(self.entries@));
        }
        match self.position(path) {
            Some(i) => {
                assert(size_views(self.entries@)[i as int].0 == path@);
                Some(self.entries[i].1)
            },
            None => {
                proof {
                    if self.sizes().contains_key(path@) {
                        let j = choose|j: int| 0 <= j < size_views(self.entries@).len() && size_views(self.entries@)[j].0 == path@;
                        assert(self.entries@[j].0@ == path@);
                    }
                }
                None
            },
        }
    }

    /// Records the size of `path`.
    pub fn insert(&mut self, path: &str, size: u64)
        requires
            old(self).wf(),
        ensures
            final(self).wf(),
            final(self).sizes() == old(self).sizes().insert(path@, size),
    {
        proof {
            lemma_assoc_map(size_views(self.entries@));
        }
        let ghost before = size_views(self.entries@);
        let ghost m0 = self.sizes();
        match self.position(path) {
            Some(i) => {
                self.entries.set(i, (String::from_str(path), size));
                proof {
                    let after = size_views(self.entries@);
                    assert(after =~= before.update(i as int, (path@, size)));
                    assert(before[i as int].0 == path@);
                    assert forall|x: int| 0 <= x < after.len() implies #[trigger] after[x].0 == before[x].0 by {}
                    assert(distinct_keys(after)) by {
                        assert forall|x: int, y: int| 0 <= x < y < after.len() implies after[x].0 != after[y].0 by {
                            assert(after[x].0 == before[x].0);
                            assert(after[y].0 == before[y].0);
                        }
                    }
                    lemma_assoc_map(after);
                    assert(m0.contains_key(path@)) by {
                        assert(before[i as int].0 == path@);
                    }
                    assert forall|k: Seq<char>| #[trigger] assoc_map(after).contains_key(k) == m0.insert(path@, size).contains_key(k) by {
                        if m0.contains_key(k) {
                            let j = choose|j: int| 0 <= j < before.len() && before[j].0 == k;
                            assert(after[j].0 == k);
                        }
                        if assoc_map(after).contains_key(k) {
                            let j = choose|j: int| 0 <= j < after.len() && after[j].0 == k;
                            assert(before[j].0 == k);
                        }
                    }
                    assert forall|k: Seq<char>| #[trigger] assoc_map(after).contains_key(k) implies assoc_map(after)[k] == m0.insert(path@, size)[k] by {
                        let j = choose|j: int| 0 <= j < after.len() && after[j].0 == k;
                        if j != i {
                            assert(before[j].0 == k);
                            assert(k != path@);
                        } else {
                            assert(after[j] == (path@, size));
                        }
                    }
                    assert(assoc_map(after) =~= m0.insert(path@, size));
                }
            },
            None => {
                self.entries.push((String::from_str(path), size));
                proof {
                    let after = size_views(self.entries@);
                    assert(after =~= before.push((path@, size)));
                    assert(after.drop_last() =~= before);
                }
            },
        }
    }
}

/// The files the dev watcher looks at: scripts, styles and pages.
pub open spec fn dev_watched(p: Seq<char>) -> bool {
    ||| extension_spec(p) == Some("js"@)
    ||| extension_spec(p) == Some("ts"@)
    ||| extension_spec(p) == Some("tsx"@)
    ||| extension_spec(p) == Some("css"@)
    ||| extension_spec(p) == Some("html"@)
}

/// One look at the files found under `glasshouse/`, `src/` and `packages/`:
/// each watched file whose size could be read is recorded; one that is new
/// or has changed size is a change, and one that changed size loses its
/// compiled JavaScript.
pub open spec fn dev_look(
    sizes: Map<Seq<char>, u64>,
    cache: Map<Seq<char>, Seq<char>>,
    seen: Seq<(Seq<char>, Option<u64>)>,
) -> (Map<Seq<char>, u64>, Map<Seq<char>, Seq<char>>, bool)
    decreases seen.len(),
{
    if seen.len() == 0 {
        (sizes, cache, false)
    } else {
        let (s1, c1, ch) = dev_look(sizes, cache, seen.drop_last());
        let p = seen.last().0;
        match seen.last().1 {
            Some(sz) => if dev_watched(p) {
                let grew = s1.contains_key(p) && s1[p] != sz;
                (s1.insert(p, sz), if grew { c1.remove(p) } else { c1 }, ch || grew || !s1.contains_key(p))
            } else {
                (s1, c1, ch)
            },
            None => (s1, c1, ch),
        }
    }
}

/// Looks at the files once. On a change, the errors shown are cleared; the
/// result says whether there was one.
pub fn dev_watch_step(sizes: &mut SizeTable, state: &mut DevState, seen: &Vec<(String, Option<u64>)>) -> (changed: bool)
    requires
        old(sizes).wf(),
        old(state).wf(),
    ensures
        final(sizes).wf(),
        final(state).wf(),
        (final(sizes).sizes(), final(state).compiled(), changed) == dev_look(
            old(sizes).sizes(),
            old(state).compiled(),
            crate::watch::seen_views(seen@),
        ),
        final(state).error_list() == (if changed { Seq::empty() } else { old(state).error_list() }),
        final(state).modules() == old(state).modules(),
{
    let ghost sv = crate::watch::seen_views(seen@);
    let ghost s0 = sizes.sizes();
    let ghost c0 = state.compiled();
    let ghost e0 = state.error_list();
    let ghost m0 = state.modules();
    let mut changed = false;
    let mut i: usize = 0;
    while i < seen.len()
        invariant
            i <= seen@.len() == sv.len(),
            sv == crate::watch::seen_views(seen@),
            sizes.wf(),
            state.wf(),
            (sizes.sizes(), state.compiled(), changed) == dev_look(s0, c0, sv.take(i as int)),
            state.error_list() == e0,
            state.modules() == m0,
        decreases seen.len() - i,
    {
        assert(sv.take(i + 1).drop_last() =~= sv.take(i as int));
        assert(sv[i as int] == (seen@[i as int].0@, seen@[i as int].1));
        let p = seen[i].0.as_str();
        match seen[i].1 {
            Some(sz) => {
                if ext_is(p, "js") || ext_is(p, "ts") || ext_is(p, "tsx") || ext_is(p, "css") || ext_is(p, "html") {
                    match sizes.get(p) {
                        Some(old) => {
                            if old != sz {
                                changed = true;
                                state.forget(p);
                            }
                        },
                        None => {
                            changed = true;
                        },
                    }
                    sizes.insert(p, sz);
                }
            },
            None => {},
        }
        i = i + 1;
    }
    assert(sv.take(sv.len() as int) =~= sv);
    if changed {
        let none: Vec<String> = Vec::new();
        assert(views(none@) =~= Seq::<Seq<char>>::empty());
        state.set_errors(none);
    }
    changed
}

/// The errors the dev server shows after a lint pass: one for each
/// forbidden JavaScript file.
pub open spec fn dev_lint_lines(vs: Seq<Violation>) -> Seq<Seq<char>> {
    vs.map_values(|v: Violation| "✗ "@ + v.file + ": "@ + v.message)
}

/// The dev server's quick lint of the files found under `src/` and
/// `packages/`.
pub fn dev_lint_errors(root: &str, files: &[String]) -> (r: Vec<String>)
    ensures
        views(r@) == dev_lint_lines(forbidden_js_spec(root@, views(files@))),
{
    let vs = forbidden_js(root, files);
    let ghost vv = vviews(vs@);
    let mut out: Vec<String> = Vec::new();
    let mut i: usize = 0;
    while i < vs.len()
        invariant
            i <= vs@.len() == vv.len(),
            vv == vviews(vs@),
            views(out@) == dev_lint_lines(vv.take(i as int)),
        decreases vs.len() - i,
    {
        let mut s = String::from_str("✗ ");
        push_str(&mut s, vs[i].file.as_str());
        push_str(&mut s, ": ");
        push_str(&mut s, vs[i].message.as_str());
        let ghost before = views(out@);
        out.push(s);
        assert(vv[i as int] == vs@[i as int]@);
        assert(vv.take(i + 1) =~= vv.take(i as int).push(vv[i as int]));
        assert(dev_lint_lines(vv.take(i + 1)) =~= dev_lint_lines(vv.take(i as int)).push(s@));
        assert(views(out@) =~= before.push(s@));
        i = i + 1;
    }
    assert(vv.take(vv.len() as int) =~= vv);
    out
}

/// The errors as a JSON array of strings.
pub open spec fn errors_json(es: Seq<Seq<char>>) -> Seq<char>
    decreases es.len(),
{
    if es.len() == 0 {
        Seq::empty()
    } else if es.len() == 1 {
        "\""@ + quoted(es[0], false) + "\""@
    } else {
        errors_json(es.drop_last()) + ","@ + "\""@ + quoted(es.last(), false) + "\""@
    }
}

/// The answer to the browser's ping: the time of the last change and the
/// errors to show.
pub open spec fn ping_body_spec(stamp: nat, es: Seq<Seq<char>>) -> Seq<char> {
    "{\"timestamp\":\""@ + decimal(stamp) + "\",\"errors\":["@ + errors_json(es) + "]}"@
}

impl DevState {
    /// The answer to the browser's ping.
    pub fn ping_body(&self, stamp: u64) -> (r: String)
        ensures
            r@ == ping_body_spec(stamp as nat, self.error_list()),
    {
        let mut s = String::from_str("{\"timestamp\":\"");
        push_decimal(&mut s, stamp);
        push_str(&mut s, "\",\"errors\":[");
        let ghost head = s@;
        let es = &self.errors;
        let ghost ev = views(es@);
        let mut i: usize = 0;
        while i < es.len()
            invariant
                i <= es@.len() == ev.len(),
                ev == views(es@),
                s@ == head + errors_json(ev.take(i as int)),
            decreases es.len() - i,
        {
            assert(ev.take(i + 1).drop_last() =~= ev.take(i as int));
            assert(ev[i as int] == es@[i as int]@);
            if i > 0 {
                push_str(&mut s, ",");
            }
            push_str(&mut s, "\"");
            push_quoted(&mut s, es[i].as_str(), false);
            push_str(&mut s, "\"");
            proof {
                if i == 0 {
                    assert(ev.take(1) =~= seq![ev[0]]);
                }
            }
            assert(s@ =~= head + errors_json(ev.take(i + 1)));
            i = i + 1;
        }
        assert(ev.take(ev.len() as int) =~= ev);
        push_str(&mut s, "]}");
        assert(s@ =~= ping_body_spec(stamp as nat, self.error_list()));
        s
    }
}

} // verus!
