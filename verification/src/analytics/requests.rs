//! Names, paths and the aggregation store of execution records.
use vstd::prelude::*;

use crate::analytics::reports::{reports_dir, REPORTS_PATH};
use crate::text::{ends_with, push_all, push_prefix, push_repeat, repeat_byte, str_contains_char, str_ends_with};

verus! {

/// Whether `c` may not stand in a name that is used as a file name.
pub open spec fn is_unsafe_char(c: char) -> bool {
    c == '/' || c == '?' || c == '\\' || c == ':' || c == '*' || c == '"' || c == '<' || c == '>'
        || c == '|' || c == ' '
}

/// The character that replaces `c` in a safe name.
pub open spec fn safe_char(c: char) -> char {
    if c == '/' {
        '-'
    } else if c == '?' {
        'x'
    } else if is_unsafe_char(c) {
        '_'
    } else {
        c
    }
}

/// `name` with each character replaced by its safe counterpart.
pub open spec fn safe_name(name: Seq<char>) -> Seq<char> {
    name.map_values(|c: char| safe_char(c))
}

/// Transform the app name to a safe format for storage:
/// `/` becomes `-`, `?` becomes `x`, and `\ : * " < > |` and the space become `_`.
pub fn to_safe_name(name: &str) -> (r: String)
    ensures
        r@ == safe_name(name@),
{
    let mut r = String::new();
    for c in it: name.chars()
        invariant
            it.seq() == name@,
            r@ == safe_name(name@.take(it.index())),
    {
        let d = if c == '/' {
            '-'
        } else if c == '?' {
            'x'
        } else if c == '\\' || c == ':' || c == '*' || c == '"' || c == '<' || c == '>' || c == '|'
            || c == ' ' {
            '_'
        } else {
            c
        };
        r.push(d);
        assert(safe_name(name@.take(it.index() + 1)) =~= safe_name(name@.take(it.index())).push(d));
    }
    assert(name@.take(name@.len() as int) == name@);
    r
}

/// `filename` with a dot and `extension` appended, unless it already ends with them.
pub open spec fn with_extension(filename: Seq<char>, extension: Seq<char>) -> Seq<char> {
    if ends_with(filename, seq!['.'] + extension) {
        filename
    } else {
        filename + seq!['.'] + extension
    }
}

/// Ensure the file has the expected extension; if not, add it.
pub fn ensure_extension(filename: &str, extension: &str) -> (r: String)
    ensures
        r@ == with_extension(filename@, extension@),
{
    let mut dotted = String::new();
    dotted.push('.');
    push_all(&mut dotted, extension);
    assert(dotted@ =~= seq!['.'] + extension@);
    let mut r = String::new();
    push_all(&mut r, filename);
    if !str_ends_with(filename, dotted.as_str()) {
        r.push('.');
        push_all(&mut r, extension);
    }
    r
}

/// The characters of the report file extension.
pub open spec fn json_ext() -> Seq<char> {
    seq!['j', 's', 'o', 'n']
}

/// The report file of a tag: the tag itself when it holds a `/`, else the tag inside the
/// reports directory; in both cases with the `json` extension ensured.
pub open spec fn tag_path(tag: Seq<char>) -> Seq<char> {
    if tag.contains('/') {
        with_extension(tag, json_ext())
    } else {
        with_extension(reports_dir() + seq!['/'] + tag, json_ext())
    }
}

/// The default report file of an execution named `name`.
pub open spec fn exec_report_path(name: Seq<char>) -> Seq<char> {
    reports_dir() + seq!['/'] + name + seq!['.'] + json_ext()
}

/// The name of the difference between the executions `base` and `head`.
pub open spec fn diff_name(base: Seq<char>, head: Seq<char>) -> Seq<char> {
    if base == head {
        base
    } else {
        base + seq!['-'] + head
    }
}

/// The characters of `REPORTS_PATH` followed by a `/`.
fn reports_prefix() -> (r: String)
    ensures
        r@ == reports_dir() + seq!['/'],
{
    proof {
        crate::analytics::reports::lemma_reports_path();
    }
    let mut r = String::new();
    push_all(&mut r, REPORTS_PATH);
    r.push('/');
    r
}

/// `chrono::Local::now().timestamp()`: the current local time, in seconds since the epoch.
/// It depends on the clock, so nothing is stated of it.
#[verifier::external_body]
fn now_timestamp() -> (r: i64) {
    chrono::Local::now().timestamp()
}

/// The identifying part of a unit of execution bench: its name, its module and the time
/// at which it was taken. The measurements that go with it are floating point numbers and are
/// kept beside it by the application.
pub struct ExecData {
    pub name: String,
    pub module: Option<String>,
    pub timestamp: i64,
}

impl ExecData {
    /// An execution record with the given identity.
    pub fn new(name: String, module: Option<String>, timestamp: i64) -> (r: ExecData)
        ensures
            r.name == name,
            r.module == module,
            r.timestamp == timestamp,
    {
        ExecData { name, module, timestamp }
    }

    /// The identity of an execution of `name` taken now: no module, and the current local
    /// time in seconds since the epoch.
    pub fn from_system_data(name: &str) -> (r: ExecData)
        ensures
            r.name@ == name@,
            r.module is None,
    {
        let mut n = String::new();
        push_all(&mut n, name);
        ExecData { name: n, module: None, timestamp: now_timestamp() }
    }

    /// Get the path for the tag. If a path is provided, return the path itself.
    /// If only a name is given, return the default path with the tag
    pub fn get_tag_path(tag: &str) -> (r: String)
        ensures
            r@ == tag_path(tag@),
    {
        proof {
            reveal_strlit("json");
            assert("json"@ =~= json_ext());
        }
        if str_contains_char(tag, '/') {
            ensure_extension(tag, "json")
        } else {
            let mut p = reports_prefix();
            push_all(&mut p, tag);
            ensure_extension(p.as_str(), "json")
        }
    }

    /// The file that the report of this execution goes to by default.
    pub fn default_path(&self) -> (r: String)
        ensures
            r@ == exec_report_path(self.name@),
    {
        proof {
            reveal_strlit(".json");
        }
        let mut p = reports_prefix();
        push_all(&mut p, self.name.as_str());
        push_all(&mut p, ".json");
        assert(p@ =~= exec_report_path(self.name@));
        p
    }

    /// The identity of the difference from `self` (the base) to `other` (the head): the names
    /// joined by `-` when they differ, and the module and timestamp of the base.
    pub fn compare(&self, other: &Self) -> (d: ExecData)
        ensures
            d.name@ == diff_name(self.name@, other.name@),
            d.module == self.module,
            d.timestamp == self.timestamp,
    {
        let name = if self.name != other.name {
            let mut n = self.name.clone();
            n.push('-');
            push_all(&mut n, other.name.as_str());
            n
        } else {
            self.name.clone()
        };
        let module = match &self.module {
            Some(m) => Some(m.clone()),
            None => None,
        };
        ExecData { name, module, timestamp: self.timestamp }
    }
}


/// The names held by a list of strings.
pub open spec fn names(v: Seq<String>) -> Seq<Seq<char>> {
    v.map_values(|s: String| s@)
}

/// The keys of `a` that `b` also holds, in the order of `a`.
pub open spec fn shared_keys(a: Seq<Seq<char>>, b: Seq<Seq<char>>) -> Seq<Seq<char>> {
    a.filter(|k: Seq<char>| b.contains(k))
}

/// The keys of `a` that `b` does not hold, in the order of `a`.
pub open spec fn keys_only_in(a: Seq<Seq<char>>, b: Seq<Seq<char>>) -> Seq<Seq<char>> {
    a.filter(|k: Seq<char>| !b.contains(k))
}

/// Appending a key extends `shared_keys` exactly when the other side holds it.
pub proof fn lemma_shared_keys_push(a: Seq<Seq<char>>, b: Seq<Seq<char>>, k: Seq<char>)
    ensures
        shared_keys(a.push(k), b) == if b.contains(k) {
            shared_keys(a, b).push(k)
        } else {
            shared_keys(a, b)
        },
        keys_only_in(a.push(k), b) == if b.contains(k) {
            keys_only_in(a, b)
        } else {
            keys_only_in(a, b).push(k)
        },
{
    reveal(Seq::filter);
    assert(a.push(k).drop_last() =~= a);
}

/// Filtering keys that occur once each gives keys that occur once each.
pub proof fn lemma_filters_distinct(a: Seq<Seq<char>>, b: Seq<Seq<char>>)
    requires
        a.no_duplicates(),
    ensures
        shared_keys(a, b).no_duplicates(),
        keys_only_in(a, b).no_duplicates(),
    decreases a.len(),
{
    broadcast use vstd::seq_lib::group_filter_ensures;

    if a.len() == 0 {
        reveal(Seq::filter);
    } else {
        let rest = a.drop_last();
        let k = a.last();
        assert(rest.push(k) =~= a);
        assert(rest.no_duplicates());
        lemma_filters_distinct(rest, b);
        lemma_shared_keys_push(rest, b, k);
        assert(!rest.contains(k)) by {
            if rest.contains(k) {
                let t = rest.index_of(k);
                assert(a[t] == a[a.len() - 1]);
            }
        }
        if shared_keys(rest, b).contains(k) {
            rest.lemma_filter_contains_rev(|q: Seq<char>| b.contains(q), k);
        }
        if keys_only_in(rest, b).contains(k) {
            rest.lemma_filter_contains_rev(|q: Seq<char>| !b.contains(q), k);
        }
        let s1 = shared_keys(rest, b);
        let s2 = keys_only_in(rest, b);
        assert forall|i: int, j: int|
            0 <= i < s1.push(k).len() && 0 <= j < s1.push(k).len() && i != j implies s1.push(k)[i]
            != s1.push(k)[j] by {
            if i == s1.len() as int {
                assert(s1[j] == s1.push(k)[j]);
            } else if j == s1.len() as int {
                assert(s1[i] == s1.push(k)[i]);
            }
        }
        assert forall|i: int, j: int|
            0 <= i < s2.push(k).len() && 0 <= j < s2.push(k).len() && i != j implies s2.push(k)[i]
            != s2.push(k)[j] by {
            if i == s2.len() as int {
                assert(s2[j] == s2.push(k)[j]);
            } else if j == s2.len() as int {
                assert(s2[i] == s2.push(k)[i]);
            }
        }
    }
}

/// In a sequence without duplicates, the element at `i` is found at `i`.
proof fn lemma_index_of_distinct<A>(s: Seq<A>, i: int)
    requires
        s.no_duplicates(),
        0 <= i < s.len(),
    ensures
        s.index_of(s[i]) == i,
{
    let j = s.index_of(s[i]);
    assert(s.contains(s[i]));
    assert(0 <= j < s.len() && s[j] == s[i]);
}

/// The counting part of the aggregate of an application's executions: its safe name and how
/// many executions it holds. The totals and averages that go with it are floating point
/// numbers and are kept beside it by the application.
#[derive(PartialEq, Eq, Debug)]
pub struct AggData {
    pub name: String,
    pub total_execs: i32,
}

impl AggData {
    /// An aggregate of `total_execs` executions of `name`.
    pub fn new(name: String, total_execs: i32) -> (r: AggData)
        ensures
            r.name == name,
            r.total_execs == total_execs,
    {
        AggData { name, total_execs }
    }

    /// Counts one more execution of the application `exec_name`, whose safe name becomes the
    /// aggregate's name.
    pub fn update(&mut self, exec_name: &str)
        requires
            old(self).total_execs < i32::MAX,
        ensures
            final(self).name@ == safe_name(exec_name@),
            final(self).total_execs == old(self).total_execs + 1,
    {
        self.name = to_safe_name(exec_name);
        self.total_execs = self.total_execs + 1;
    }

    /// The change from `self` to `other`: the safe form of this aggregate's name, and the
    /// executions `other` holds beyond those of `self`.
    pub fn difference(&self, other: &Self) -> (r: AggData)
        requires
            i32::MIN <= other.total_execs - self.total_execs <= i32::MAX,
        ensures
            r.name@ == safe_name(self.name@),
            r.total_execs == other.total_execs - self.total_execs,
    {
        AggData { name: to_safe_name(self.name.as_str()), total_execs: other.total_execs - self.total_execs }
    }
}

impl Default for AggData {
    fn default() -> (r: AggData)
        ensures
            r.name@ == Seq::<char>::empty(),
            r.total_execs == 0,
    {
        AggData { name: String::new(), total_execs: 0 }
    }
}

/// All the aggregated data, each aggregate under the name of the application.
/// Names are kept in the order in which they were first recorded.
#[derive(Debug)]
pub struct ExecAgg<V> {
    entries: Vec<(String, V)>,
}

/// The difference between two [`ExecAgg`].
#[derive(Clone, Debug)]
pub struct ExecAggDiff<V> {
    /// The difference between both data sets.
    pub exec_agg: ExecAgg<V>,
    /// The apps that only the first [`ExecAgg`] holds.
    pub exclusive: Vec<String>,
    /// The apps missing from the first [`ExecAgg`].
    pub missed: Vec<String>,
}

/// The names of a list of entries, in order.
pub open spec fn entry_keys<V>(e: Seq<(String, V)>) -> Seq<Seq<char>> {
    Seq::new(e.len(), |i: int| e[i].0@)
}

/// The map from the names of a list of entries to their values.
pub open spec fn entry_map<V>(e: Seq<(String, V)>) -> Map<Seq<char>, V> {
    Map::new(
        |k: Seq<char>| entry_keys(e).contains(k),
        |k: Seq<char>| e[entry_keys(e).index_of(k)].1,
    )
}

/// The position of `name` among the names of `entries`, if it is there.
fn find_entry<V>(entries: &Vec<(String, V)>, name: &String) -> (r: Option<usize>)
    ensures
        match r {
            Some(i) => i < entry_keys(entries@).len() && entry_keys(entries@)[i as int] == name@,
            None => !entry_keys(entries@).contains(name@),
        },
{
    let mut i: usize = 0;
    while i < entries.len()
        invariant
            i <= entries@.len(),
            forall|j: int| 0 <= j < i ==> entry_keys(entries@)[j] != name@,
        decreases entries@.len() - i,
    {
        if entries[i].0 == *name {
            return Some(i);
        }
        i = i + 1;
    }
    None
}

/// Stores `value` under `name` in a list of entries whose names are distinct, replacing what
/// was there; a new name goes last.
fn insert_entry<V>(entries: &mut Vec<(String, V)>, name: String, value: V)
    requires
        entry_keys(old(entries)@).no_duplicates(),
    ensures
        entry_keys(final(entries)@).no_duplicates(),
        entry_map(final(entries)@) == entry_map(old(entries)@).insert(name@, value),
        entry_keys(final(entries)@) == if entry_keys(old(entries)@).contains(name@) {
            entry_keys(old(entries)@)
        } else {
            entry_keys(old(entries)@).push(name@)
        },
{
    let ghost old_keys = entry_keys(entries@);
    let ghost old_map = entry_map(entries@);
    let ghost k = name@;
    let found = find_entry(entries, &name);
    match found {
        Some(i) => {
            entries.set(i, (name, value));
            let ghost new_keys = entry_keys(entries@);
            assert(new_keys =~= old_keys);
            assert forall|q: Seq<char>| #[trigger] new_keys.contains(q) implies entries@[new_keys.index_of(
                q,
            )].1 == old_map.insert(k, value)[q] by {
                let j = old_keys.index_of(q);
                assert(old_keys.contains(q));
                lemma_index_of_distinct(old_keys, j);
                if q == k {
                    lemma_index_of_distinct(old_keys, i as int);
                }
            }
            assert(entry_map(entries@) =~= old_map.insert(k, value));
        },
        None => {
            entries.push((name, value));
            let ghost new_keys = entry_keys(entries@);
            assert(new_keys =~= old_keys.push(k));
            assert forall|q: Seq<char>| #[trigger] new_keys.contains(q) implies entries@[new_keys.index_of(
                q,
            )].1 == old_map.insert(k, value)[q] by {
                if q == k {
                    lemma_index_of_distinct(new_keys, old_keys.len() as int);
                } else {
                    let j = old_keys.index_of(q);
                    assert(old_keys.contains(q)) by {
                        let t = new_keys.index_of(q);
                        assert(new_keys[t] == q);
                        assert(t < old_keys.len());
                        assert(old_keys[t] == q);
                    }
                    lemma_index_of_distinct(old_keys, j);
                    lemma_index_of_distinct(new_keys, j);
                }
            }
            assert forall|q: Seq<char>| new_keys.contains(q) <==> (old_keys.contains(q) || q == k) by {
                if old_keys.contains(q) {
                    let t = old_keys.index_of(q);
                    assert(new_keys[t] == q);
                }
                if q == k {
                    assert(new_keys[old_keys.len() as int] == q);
                }
                if new_keys.contains(q) {
                    let t = new_keys.index_of(q);
                    if t < old_keys.len() {
                        assert(old_keys[t] == q);
                    }
                }
            }
            assert(entry_map(entries@) =~= old_map.insert(k, value));
        },
    }
}

impl<V> ExecAgg<V> {
    /// The names, in order.
    pub closed spec fn keys(self) -> Seq<Seq<char>> {
        entry_keys(self.entries@)
    }

    /// Each name occurs once.
    #[verifier::type_invariant]
    closed spec fn names_distinct(self) -> bool {
        entry_keys(self.entries@).no_duplicates()
    }

    /// The map from names to aggregates.
    pub closed spec fn as_map(self) -> Map<Seq<char>, V> {
        entry_map(self.entries@)
    }

    /// The names of the map are exactly the keys.
    pub proof fn lemma_dom(self)
        ensures
            forall|k: Seq<char>| #[trigger] self@.contains_key(k) <==> self.keys().contains(k),
    {
    }

    /// An empty aggregation.
    pub fn new() -> (r: Self)
        ensures
            r.keys() == Seq::<Seq<char>>::empty(),
            r@ == Map::<Seq<char>, V>::empty(),
    {
        let r = ExecAgg { entries: Vec::new() };
        assert(r.keys() =~= Seq::<Seq<char>>::empty());
        assert(r@ =~= Map::<Seq<char>, V>::empty());
        r
    }

    /// The number of names.
    pub fn len(&self) -> (r: usize)
        ensures
            r == self.keys().len(),
            self.keys().no_duplicates(),
    {
        proof {
            use_type_invariant(self);
        }
        self.entries.len()
    }

    /// Whether no name is held.
    pub fn is_empty(&self) -> (r: bool)
        ensures
            r == (self.keys().len() == 0),
    {
        self.entries.len() == 0
    }

    /// The position of `name`, if held.
    fn find(&self, name: &String) -> (r: Option<usize>)
        ensures
            match r {
                Some(i) => i < self.keys().len() && self.keys()[i as int] == name@,
                None => !self.keys().contains(name@),
            },
    {
        find_entry(&self.entries, name)
    }

    /// Whether `name` is held.
    pub fn contains_key(&self, name: &String) -> (r: bool)
        ensures
            r == self@.contains_key(name@),
    {
        self.find(name).is_some()
    }

    /// The aggregate stored under `name`.
    pub fn get(&self, name: &String) -> (r: Option<&V>)
        ensures
            match r {
                Some(v) => self@.contains_key(name@) && *v == self@[name@],
                None => !self@.contains_key(name@),
            },
    {
        proof {
            use_type_invariant(self);
        }
        match self.find(name) {
            Some(i) => {
                proof {
                    lemma_index_of_distinct(self.keys(), i as int);
                }
                Some(&self.entries[i].1)
            },
            None => None,
        }
    }

    /// Stores `value` under `name`, replacing what was there; a new name goes last.
    pub fn insert(&mut self, name: String, value: V)
        ensures
            final(self)@ == old(self)@.insert(name@, value),
            final(self).keys() == if old(self).keys().contains(name@) {
                old(self).keys()
            } else {
                old(self).keys().push(name@)
            },
    {
        proof {
            use_type_invariant(&*self);
        }
        let mut entries: Vec<(String, V)> = Vec::new();
        std::mem::swap(&mut entries, &mut self.entries);
        insert_entry(&mut entries, name, value);
        self.entries = entries;
    }

    /// Removes every name.
    pub fn clear(&mut self)
        ensures
            final(self).keys() == Seq::<Seq<char>>::empty(),
            final(self)@ == Map::<Seq<char>, V>::empty(),
    {
        self.entries = Vec::new();
        assert(self.keys() =~= Seq::<Seq<char>>::empty());
        assert(self@ =~= Map::<Seq<char>, V>::empty());
    }

    /// The aggregate stored under `k`, if any, as a reference.
    pub open spec fn lookup(&self, k: Seq<char>) -> Option<&V> {
        if self@.contains_key(k) {
            Some(&self@[k])
        } else {
            None
        }
    }

    /// Folds one execution of the application `name` into the aggregation, under the safe
    /// form of `name` ([`to_safe_name`]): `update` turns the aggregate stored there (or its
    /// absence) into the new aggregate, which replaces it.
    pub fn record_execution<F: Fn(Option<&V>) -> V>(&mut self, name: &str, update: F)
        requires
            forall|p: Option<&V>| call_requires(update, (p,)),
        ensures
            call_ensures(
                update,
                (old(self).lookup(safe_name(name@)),),
                final(self)@[safe_name(name@)],
            ),
            final(self)@ == old(self)@.insert(safe_name(name@), final(self)@[safe_name(name@)]),
            final(self).keys() == if old(self).keys().contains(safe_name(name@)) {
                old(self).keys()
            } else {
                old(self).keys().push(safe_name(name@))
            },
    {
        let safe = to_safe_name(name);
        let updated = update(self.get(&safe));
        self.insert(safe, updated);
    }

    /// The names, in order.
    pub fn names(&self) -> (r: Vec<String>)
        ensures
            names(r@) == self.keys(),
            names(r@).no_duplicates(),
    {
        proof {
            use_type_invariant(self);
        }
        let mut r: Vec<String> = Vec::new();
        let mut i: usize = 0;
        while i < self.entries.len()
            invariant
                i <= self.entries@.len(),
                r@.len() == i,
                forall|t: int| 0 <= t < i ==> #[trigger] r@[t]@ == self.keys()[t],
            decreases self.entries@.len() - i,
        {
            r.push(self.entries[i].0.clone());
            i = i + 1;
        }
        assert(names(r@) =~= self.keys());
        r
    }

    /// The name and aggregate at position `i`.
    pub fn entry(&self, i: usize) -> (r: (&String, &V))
        requires
            i < self.keys().len(),
        ensures
            r.0@ == self.keys()[i as int],
            *r.1 == self@[self.keys()[i as int]],
    {
        proof {
            use_type_invariant(self);
            lemma_index_of_distinct(self.keys(), i as int);
        }
        (&self.entries[i].0, &self.entries[i].1)
    }

    /// Compare two maps and return an [`ExecAggDiff`] representing the difference: for each
    /// name that both hold, `difference` of the two aggregates (in the order of `self`);
    /// the names only `self` holds are `exclusive`, those only `other` holds are `missed`.
    pub fn compare<F: Fn(&V, &V) -> V>(&self, other: &Self, difference: F) -> (d: ExecAggDiff<V>)
        requires
            forall|a: &V, b: &V| call_requires(difference, (a, b)),
        ensures
            d.exec_agg.keys() == shared_keys(self.keys(), other.keys()),
            forall|k: Seq<char>| #[trigger]
                d.exec_agg@.contains_key(k) ==> call_ensures(
                    difference,
                    (&self@[k], &other@[k]),
                    d.exec_agg@[k],
                ),
            names(d.exclusive@) == keys_only_in(self.keys(), other.keys()),
            names(d.missed@) == keys_only_in(other.keys(), self.keys()),
            d.exec_agg.keys().no_duplicates(),
            names(d.exclusive@).no_duplicates(),
            names(d.missed@).no_duplicates(),
    {
        proof {
            use_type_invariant(self);
            use_type_invariant(other);
            lemma_filters_distinct(self.keys(), other.keys());
            lemma_filters_distinct(other.keys(), self.keys());
        }
        let mut exec_agg: ExecAgg<V> = ExecAgg::new();
        let mut exclusive: Vec<String> = Vec::new();
        let mut i: usize = 0;
        while i < self.entries.len()
            invariant
                self.keys().no_duplicates(),
                forall|a: &V, b: &V| call_requires(difference, (a, b)),
                i <= self.entries@.len(),
                exec_agg.keys() == shared_keys(self.keys().take(i as int), other.keys()),
                names(exclusive@) == keys_only_in(self.keys().take(i as int), other.keys()),
                forall|k: Seq<char>| #[trigger]
                    exec_agg@.contains_key(k) ==> call_ensures(
                        difference,
                        (&self@[k], &other@[k]),
                        exec_agg@[k],
                    ),
            decreases self.entries@.len() - i,
        {
            let ghost k = self.keys()[i as int];
            let ghost before = self.keys().take(i as int);
            proof {
                lemma_shared_keys_push(before, other.keys(), k);
                assert(self.keys().take(i + 1) =~= before.push(k));
                lemma_index_of_distinct(self.keys(), i as int);
                if exec_agg.keys().contains(k) {
                    before.lemma_filter_contains_rev(|q: Seq<char>| other.keys().contains(q), k);
                    let t = before.index_of(k);
                    assert(self.keys()[t] == k);
                }
            }
            let name = &self.entries[i].0;
            let value = &self.entries[i].1;
            match other.get(name) {
                Some(ov) => {
                    let dv = difference(value, ov);
                    exec_agg.insert(name.clone(), dv);
                },
                None => {
                    exclusive.push(name.clone());
                    assert(names(exclusive@) =~= names(exclusive@.drop_last()).push(k));
                },
            }
            i = i + 1;
        }
        assert(self.keys().take(i as int) =~= self.keys());
        let mut missed: Vec<String> = Vec::new();
        let mut j: usize = 0;
        while j < other.entries.len()
            invariant
                j <= other.entries@.len(),
                names(missed@) == keys_only_in(other.keys().take(j as int), self.keys()),
            decreases other.entries@.len() - j,
        {
            let ghost k = other.keys()[j as int];
            proof {
                lemma_shared_keys_push(other.keys().take(j as int), self.keys(), k);
                assert(other.keys().take(j + 1) =~= other.keys().take(j as int).push(k));
            }
            let name = &other.entries[j].0;
            if !self.contains_key(name) {
                missed.push(name.clone());
                assert(names(missed@) =~= names(missed@.drop_last()).push(k));
            }
            j = j + 1;
        }
        assert(other.keys().take(j as int) =~= other.keys());
        ExecAggDiff { exec_agg, exclusive, missed }
    }
}

impl<V: Clone> Clone for ExecAgg<V> {
    /// A copy holding the same names in the same order, each with a clone of its aggregate.
    fn clone(&self) -> (r: ExecAgg<V>)
        ensures
            r.keys() == self.keys(),
            forall|k: Seq<char>| #[trigger] r@.contains_key(k) ==> cloned(self@[k], r@[k]),
    {
        proof {
            use_type_invariant(self);
        }
        let mut entries: Vec<(String, V)> = Vec::new();
        let mut i: usize = 0;
        while i < self.entries.len()
            invariant
                i <= self.entries@.len(),
                entries@.len() == i,
                forall|t: int| 0 <= t < i ==> #[trigger] entries@[t].0 == self.entries@[t].0,
                forall|t: int| 0 <= t < i ==> cloned(self.entries@[t].1, #[trigger] entries@[t].1),
            decreases self.entries@.len() - i,
        {
            let name = self.entries[i].0.clone();
            let value = self.entries[i].1.clone();
            entries.push((name, value));
            i = i + 1;
        }
        assert(entry_keys(entries@) =~= self.keys());
        let r = ExecAgg { entries };
        assert forall|k: Seq<char>| #[trigger] r@.contains_key(k) implies cloned(self@[k], r@[k]) by {
            let t = self.keys().index_of(k);
            assert(self.keys().contains(k));
        }
        r
    }
}

impl<V> Default for ExecAgg<V> {
    fn default() -> (r: ExecAgg<V>)
        ensures
            r.keys() == Seq::<Seq<char>>::empty(),
            r@ == Map::<Seq<char>, V>::empty(),
    {
        ExecAgg::new()
    }
}

impl<V> Default for ExecAggDiff<V> {
    fn default() -> (r: ExecAggDiff<V>)
        ensures
            r.exec_agg.keys() == Seq::<Seq<char>>::empty(),
            r.exclusive@.len() == 0,
            r.missed@.len() == 0,
    {
        ExecAggDiff { exec_agg: ExecAgg::new(), exclusive: Vec::new(), missed: Vec::new() }
    }
}

impl<V> View for ExecAgg<V> {
    type V = Map<Seq<char>, V>;

    closed spec fn view(&self) -> Map<Seq<char>, V> {
        self.as_map()
    }
}


/// `a - b`, or zero when `b` is larger.
pub open spec fn sat_sub(a: int, b: int) -> int {
    if a > b {
        a - b
    } else {
        0
    }
}

/// The bytes of a text.
pub open spec fn text_bytes(s: String) -> Seq<u8> {
    vstd::utf8::encode_utf8(s@)
}

/// The length in bytes of the longest field name.
pub open spec fn max_name_len(fields: Seq<(String, String)>) -> nat
    decreases fields.len(),
{
    if fields.len() == 0 {
        0
    } else {
        let rest = max_name_len(fields.drop_last());
        let last = text_bytes(fields.last().0).len();
        if rest < last {
            last
        } else {
            rest
        }
    }
}

/// The room left for a value after its name, padded to `max` bytes, and the ` | ` separator
/// (the padding is counted twice, and one more byte is kept).
pub open spec fn value_room(name_len: nat, max: nat, width: nat) -> int {
    sat_sub(sat_sub(sat_sub(width as int, max as int), max - name_len), 4)
}

/// The value as shown: cut to leave room for `...` when it does not fit in `room`.
pub open spec fn shown_value(value: Seq<u8>, room: int) -> Seq<u8> {
    if value.len() > room {
        value.take(sat_sub(room, 3)) + repeat_byte(46, 3)
    } else {
        value
    }
}

/// One line of the table: the name padded to `max`, ` | `, and the value padded to its room.
pub open spec fn table_line(name: Seq<u8>, value: Seq<u8>, max: nat, width: nat) -> Seq<u8> {
    let room = value_room(name.len(), max, width);
    let shown = shown_value(value, room);
    name + repeat_byte(32, (max - name.len()) as nat) + seq![32u8, 124u8, 32u8] + shown
        + repeat_byte(32, sat_sub(room, shown.len() as int) as nat)
}

/// Whether a value has to be cut at a place that is not a character boundary.
pub open spec fn cuts_inside_char(value: Seq<u8>, room: int) -> bool {
    value.len() > room && !vstd::utf8::is_char_boundary(value, sat_sub(room, 3))
}

/// The lines of a table of `width` bytes: a rule of `=`, one line per field, a rule of `=`.
pub open spec fn table_lines(fields: Seq<(String, String)>, width: nat) -> Seq<Seq<u8>> {
    let max = max_name_len(fields);
    seq![repeat_byte(61, width)] + Seq::new(
        fields.len(),
        |i: int| table_line(text_bytes(fields[i].0), text_bytes(fields[i].1), max, width),
    ) + seq![repeat_byte(61, width)]
}

/// The longest name is at least as long as any.
proof fn lemma_max_name_len(fields: Seq<(String, String)>, i: int)
    requires
        0 <= i < fields.len(),
    ensures
        text_bytes(fields[i].0).len() <= max_name_len(fields),
    decreases fields.len(),
{
    if i < fields.len() - 1 {
        lemma_max_name_len(fields.drop_last(), i);
    }
}

/// The lines of the table that shows an execution: each field name padded to the longest,
/// then ` | ` and its value, cut with `...` when it does not fit in `width`.
pub fn pretty_table(fields: &Vec<(String, String)>, width: usize) -> (lines: Vec<Vec<u8>>)
    requires
        forall|i: int|
            0 <= i < fields@.len() ==> !cuts_inside_char(
                text_bytes(#[trigger] fields@[i].1),
                value_room(
                    text_bytes(fields@[i].0).len(),
                    max_name_len(fields@),
                    width as nat,
                ),
            ),
    ensures
        lines@.len() == fields@.len() + 2,
        forall|i: int| 0 <= i < lines@.len() ==> #[trigger] lines@[i]@ == table_lines(fields@, width as nat)[i],
{
    let mut max: usize = 0;
    let mut i: usize = 0;
    while i < fields.len()
        invariant
            i <= fields@.len(),
            max == max_name_len(fields@.take(i as int)),
        decreases fields@.len() - i,
    {
        assert(fields@.take(i + 1).drop_last() =~= fields@.take(i as int));
        assert(fields@.take(i + 1).last() == fields@[i as int]);
        let n = fields[i].0.as_str().as_bytes().len();
        assert(n == text_bytes(fields@[i as int].0).len());
        if max < n {
            max = n;
        }
        i = i + 1;
    }
    assert(fields@.take(i as int) =~= fields@);
    let mut lines: Vec<Vec<u8>> = Vec::new();
    let mut top: Vec<u8> = Vec::new();
    push_repeat(&mut top, 61, width);
    lines.push(top);
    let mut k: usize = 0;
    while k < fields.len()
        invariant
            k <= fields@.len(),
            max == max_name_len(fields@),
            lines@.len() == k + 1,
            forall|j: int|
                0 <= j < fields@.len() ==> !cuts_inside_char(
                    text_bytes(#[trigger] fields@[j].1),
                    value_room(text_bytes(fields@[j].0).len(), max_name_len(fields@), width as nat),
                ),
            forall|j: int| 0 <= j <= k ==> #[trigger] lines@[j]@ == table_lines(fields@, width as nat)[j],
        decreases fields@.len() - k,
    {
        proof {
            lemma_max_name_len(fields@, k as int);
        }
        let name = fields[k].0.as_str().as_bytes();
        let value = fields[k].1.as_str().as_bytes();
        let pad = max - name.len();
        let room = width.saturating_sub(max).saturating_sub(pad).saturating_sub(4);
        let mut line: Vec<u8> = Vec::new();
        push_prefix(&mut line, name, name.len());
        push_repeat(&mut line, 32, pad);
        line.push(32);
        line.push(124);
        line.push(32);
        let shown_len: usize;
        if value.len() > room {
            let cut = room.saturating_sub(3);
            push_prefix(&mut line, value, cut);
            push_repeat(&mut line, 46, 3);
            shown_len = cut + 3;
        } else {
            push_prefix(&mut line, value, value.len());
            shown_len = value.len();
        }
        push_repeat(&mut line, 32, room.saturating_sub(shown_len));
        proof {
            let nb = text_bytes(fields@[k as int].0);
            let vb = text_bytes(fields@[k as int].1);
            assert(name@ == nb);
            assert(value@ == vb);
            assert(nb.take(nb.len() as int) =~= nb);
            assert(vb.take(vb.len() as int) =~= vb);
            assert(room == value_room(nb.len(), max as nat, width as nat));
            assert(line@ =~= table_line(nb, vb, max as nat, width as nat));
        }
        lines.push(line);
        k = k + 1;
    }
    let mut bottom: Vec<u8> = Vec::new();
    push_repeat(&mut bottom, 61, width);
    lines.push(bottom);
    lines
}


/// Each field line of the table is the field's name, padding up to the longest name, ` | `, then
/// the value: whole when it fits in its room, else its first `room - 3` bytes followed by `...`;
/// spaces fill the rest of the room. The first and last lines are rules of `width` `=` bytes.
pub proof fn lemma_table_lines(fields: Seq<(String, String)>, width: nat, i: int)
    requires
        0 <= i < fields.len(),
    ensures
        ({
            let name = text_bytes(fields[i].0);
            let value = text_bytes(fields[i].1);
            let max = max_name_len(fields) as int;
            let nl = name.len() as int;
            let vl = value.len() as int;
            let r0 = if width > max { width - max } else { 0 };
            let r1 = if r0 > max - nl { r0 - (max - nl) } else { 0 };
            let room = if r1 > 4 { r1 - 4 } else { 0 };
            let cut = if room > 3 { room - 3 } else { 0 };
            let line = table_lines(fields, width)[i + 1];
            &&& table_lines(fields, width).len() == fields.len() + 2
            &&& line.take(nl) == name
            &&& forall|j: int| nl <= j < max ==> #[trigger] line[j] == 32u8
            &&& line.subrange(max, max + 3) == seq![32u8, 124u8, 32u8]
            &&& vl <= room ==> {
                &&& line.subrange(max + 3, max + 3 + vl) == value
                &&& line.len() == max + 3 + room
                &&& forall|j: int| max + 3 + vl <= j < line.len() ==> #[trigger] line[j] == 32u8
            }
            &&& vl > room ==> {
                &&& line.subrange(max + 3, max + 3 + cut) == value.take(cut)
                &&& line.subrange(max + 3 + cut, max + 6 + cut) == seq![46u8, 46u8, 46u8]
                &&& line.len() == max + 3 + if room >= 3 {
                    room
                } else {
                    3
                }
            }
        }),
        table_lines(fields, width)[0] == Seq::new(width, |j: int| 61u8),
        table_lines(fields, width)[fields.len() + 1int] == Seq::new(width, |j: int| 61u8),
{
    lemma_max_name_len(fields, i);
    let name = text_bytes(fields[i].0);
    let value = text_bytes(fields[i].1);
    let max = max_name_len(fields);
    let m = max as int;
    let vl = value.len() as int;
    let room = value_room(name.len(), max, width);
    let line = table_lines(fields, width)[i + 1];
    assert(line == table_line(name, value, max, width));
    let shown = shown_value(value, room);
    assert(line =~= name + repeat_byte(32, (max - name.len()) as nat) + seq![32u8, 124u8, 32u8]
        + shown + repeat_byte(32, sat_sub(room, shown.len() as int) as nat));
    assert(line.take(name.len() as int) =~= name);
    assert(line.subrange(m, m + 3) =~= seq![32u8, 124u8, 32u8]);
    if vl <= room {
        assert(line.subrange(m + 3, m + 3 + vl) =~= value);
    } else {
        let cut = sat_sub(room, 3);
        assert(line.subrange(m + 3, m + 3 + cut) =~= value.take(cut));
        assert(line.subrange(m + 3 + cut, m + 6 + cut) =~= seq![46u8, 46u8, 46u8]);
    }
    assert(table_lines(fields, width)[0] =~= Seq::new(width, |j: int| 61u8));
    assert(table_lines(fields, width)[fields.len() + 1int] =~= Seq::new(width, |j: int| 61u8));
}

/// Whether no value of the table has to be cut inside a character, which is what
/// [`pretty_table`] requires.
pub fn table_cuts_on_char_boundaries(fields: &Vec<(String, String)>, width: usize) -> (r: bool)
    ensures
        r == forall|i: int|
            0 <= i < fields@.len() ==> !cuts_inside_char(
                text_bytes(#[trigger] fields@[i].1),
                value_room(text_bytes(fields@[i].0).len(), max_name_len(fields@), width as nat),
            ),
{
    let mut max: usize = 0;
    let mut i: usize = 0;
    while i < fields.len()
        invariant
            i <= fields@.len(),
            max == max_name_len(fields@.take(i as int)),
        decreases fields@.len() - i,
    {
        assert(fields@.take(i + 1).drop_last() =~= fields@.take(i as int));
        assert(fields@.take(i + 1).last() == fields@[i as int]);
        let n = fields[i].0.as_str().as_bytes().len();
        if max < n {
            max = n;
        }
        i = i + 1;
    }
    assert(fields@.take(i as int) =~= fields@);
    let mut k: usize = 0;
    while k < fields.len()
        invariant
            k <= fields@.len(),
            max == max_name_len(fields@),
            forall|j: int|
                0 <= j < k ==> !cuts_inside_char(
                    text_bytes(#[trigger] fields@[j].1),
                    value_room(text_bytes(fields@[j].0).len(), max_name_len(fields@), width as nat),
                ),
        decreases fields@.len() - k,
    {
        proof {
            lemma_max_name_len(fields@, k as int);
        }
        let name_len = fields[k].0.as_str().as_bytes().len();
        let value = fields[k].1.as_str();
        let value_len = value.as_bytes().len();
        let room = width.saturating_sub(max).saturating_sub(max - name_len).saturating_sub(4);
        if value_len > room && !value.is_char_boundary(room.saturating_sub(3)) {
            return false;
        }
        k = k + 1;
    }
    true
}


impl<V> ExecAgg<V> {
    /// Where the aggregated report goes by default.
    pub fn default_path(&self) -> (r: String)
        ensures
            r@ == crate::analytics::reports::agg_report_path(),
    {
        crate::analytics::reports::default_agg_report_path()
    }
}

/// Making a name safe replaces `/` by `-`, `?` by `x`, each of `\ : * " < > |` and the space by
/// `_`, and keeps every other character (such as `.`) where it is.
pub proof fn lemma_safe_name_replacements(name: Seq<char>)
    ensures
        safe_name(name).len() == name.len(),
        forall|i: int|
            0 <= i < name.len() ==> {
                let c = name[i];
                let d = #[trigger] safe_name(name)[i];
                &&& c == '/' ==> d == '-'
                &&& c == '?' ==> d == 'x'
                &&& (c == '\\' || c == ':' || c == '*' || c == '"' || c == '<' || c == '>' || c == '|'
                    || c == ' ') ==> d == '_'
                &&& (c != '/' && c != '?' && c != '\\' && c != ':' && c != '*' && c != '"' && c != '<'
                    && c != '>' && c != '|' && c != ' ') ==> d == c
            },
{
}

/// A safe name holds none of the characters that may not stand in a file name, and is as
/// long as the name it was made from.
pub proof fn lemma_safe_name_is_safe(name: Seq<char>)
    ensures
        safe_name(name).len() == name.len(),
        forall|i: int| 0 <= i < name.len() ==> !is_unsafe_char(#[trigger] safe_name(name)[i]),
{
}

/// Making a name safe twice is making it safe once.
pub proof fn lemma_safe_name_idempotent(name: Seq<char>)
    ensures
        safe_name(safe_name(name)) == safe_name(name),
{
    assert(safe_name(safe_name(name)) =~= safe_name(name));
}

/// A name is left as it is exactly when it holds no character that has to be replaced.
pub proof fn lemma_safe_name_fixed(name: Seq<char>)
    ensures
        (safe_name(name) == name) <==> (forall|i: int|
            0 <= i < name.len() ==> !is_unsafe_char(#[trigger] name[i])),
{
    if forall|i: int| 0 <= i < name.len() ==> !is_unsafe_char(#[trigger] name[i]) {
        assert(safe_name(name) =~= name);
    }
    if safe_name(name) == name {
        assert forall|i: int| 0 <= i < name.len() implies !is_unsafe_char(#[trigger] name[i]) by {
            assert(safe_name(name)[i] == name[i]);
        }
    }
}

/// A file name with its extension ensured ends with it, and ensuring it again changes nothing.
pub proof fn lemma_extension_ensured(filename: Seq<char>, extension: Seq<char>)
    ensures
        ends_with(with_extension(filename, extension), seq!['.'] + extension),
        with_extension(with_extension(filename, extension), extension) == with_extension(
            filename,
            extension,
        ),
{
    let r = filename + seq!['.'] + extension;
    let e = seq!['.'] + extension;
    assert(r.subrange(r.len() - e.len(), r.len() as int) =~= e);
}

/// The report file of any tag ends with `.json`.
pub proof fn lemma_tag_path_is_json(tag: Seq<char>)
    ensures
        ends_with(tag_path(tag), seq!['.'] + json_ext()),
{
    lemma_extension_ensured(tag, json_ext());
    lemma_extension_ensured(reports_dir() + seq!['/'] + tag, json_ext());
}

/// The difference of an execution with one of the same name keeps that name.
pub proof fn lemma_diff_name_same(name: Seq<char>)
    ensures
        diff_name(name, name) == name,
{
}

/// Compared with itself, an aggregation has every name in common, none exclusive, none missed.
pub proof fn lemma_compare_with_itself(keys: Seq<Seq<char>>)
    ensures
        shared_keys(keys, keys) == keys,
        keys_only_in(keys, keys) == Seq::<Seq<char>>::empty(),
{
    assert(keys.take(keys.len() as int) =~= keys);
    lemma_compare_with_itself_prefix(keys, keys);
}

/// The keys of a prefix that the whole holds are the prefix itself.
proof fn lemma_compare_with_itself_prefix(keys: Seq<Seq<char>>, prefix: Seq<Seq<char>>)
    requires
        prefix.len() <= keys.len(),
        prefix == keys.take(prefix.len() as int),
    ensures
        shared_keys(prefix, keys) == prefix,
        keys_only_in(prefix, keys) == Seq::<Seq<char>>::empty(),
    decreases prefix.len(),
{
    if prefix.len() > 0 {
        let k = prefix.last();
        let rest = prefix.drop_last();
        assert(rest =~= keys.take(rest.len() as int));
        lemma_compare_with_itself_prefix(keys, rest);
        assert(keys[prefix.len() - 1] == k);
        assert(keys.contains(k));
        lemma_shared_keys_push(rest, keys, k);
        assert(rest.push(k) =~= prefix);
    } else {
        reveal(Seq::filter);
    }
}

/// Every name of the first aggregation is either in common or exclusive, never both; the
/// missed names are exactly those of the second that the first lacks; and the names in common
/// are the same whichever side is compared with the other.
pub proof fn lemma_compare_partition(a: Seq<Seq<char>>, b: Seq<Seq<char>>)
    ensures
        forall|k: Seq<char>|
            a.contains(k) <==> (shared_keys(a, b).contains(k) || keys_only_in(a, b).contains(k)),
        forall|k: Seq<char>| !(shared_keys(a, b).contains(k) && keys_only_in(a, b).contains(k)),
        forall|k: Seq<char>| keys_only_in(b, a).contains(k) <==> (b.contains(k) && !a.contains(k)),
        forall|k: Seq<char>| shared_keys(a, b).contains(k) <==> shared_keys(b, a).contains(k),
{
    broadcast use vstd::seq_lib::group_filter_ensures;

    let pa = |k: Seq<char>| b.contains(k);
    let na = |k: Seq<char>| !b.contains(k);
    let pb = |k: Seq<char>| a.contains(k);
    let nb = |k: Seq<char>| !a.contains(k);
    assert forall|k: Seq<char>| a.contains(k) <==> (shared_keys(a, b).contains(k) || keys_only_in(
        a,
        b,
    ).contains(k)) by {
        if a.contains(k) {
            let i = a.index_of(k);
            if b.contains(k) {
                a.lemma_filter_contains(pa, i);
            } else {
                a.lemma_filter_contains(na, i);
            }
        }
        if shared_keys(a, b).contains(k) {
            a.lemma_filter_contains_rev(pa, k);
        }
        if keys_only_in(a, b).contains(k) {
            a.lemma_filter_contains_rev(na, k);
        }
    }
    assert forall|k: Seq<char>| !(shared_keys(a, b).contains(k) && keys_only_in(a, b).contains(k)) by {
        if shared_keys(a, b).contains(k) && keys_only_in(a, b).contains(k) {
            let i = shared_keys(a, b).index_of(k);
            let j = keys_only_in(a, b).index_of(k);
            a.lemma_filter_pred(pa, i);
            a.lemma_filter_pred(na, j);
        }
    }
    assert forall|k: Seq<char>| keys_only_in(b, a).contains(k) <==> (b.contains(k) && !a.contains(k)) by {
        if keys_only_in(b, a).contains(k) {
            b.lemma_filter_contains_rev(nb, k);
            let j = keys_only_in(b, a).index_of(k);
            b.lemma_filter_pred(nb, j);
        }
        if b.contains(k) && !a.contains(k) {
            b.lemma_filter_contains(nb, b.index_of(k));
        }
    }
    assert forall|k: Seq<char>| shared_keys(a, b).contains(k) <==> shared_keys(b, a).contains(k) by {
        if shared_keys(a, b).contains(k) {
            a.lemma_filter_contains_rev(pa, k);
            a.lemma_filter_pred(pa, shared_keys(a, b).index_of(k));
            b.lemma_filter_contains(pb, b.index_of(k));
        }
        if shared_keys(b, a).contains(k) {
            b.lemma_filter_contains_rev(pb, k);
            b.lemma_filter_pred(pb, shared_keys(b, a).index_of(k));
            a.lemma_filter_contains(pa, a.index_of(k));
        }
    }
}

/// Executions accumulate per application: once an execution of `name` is recorded, the next
/// recording of the same application (of any name with the same safe form) starts from the
/// aggregate just stored, and what every other application starts from is unchanged.
pub proof fn lemma_record_accumulates<V>(
    before: ExecAgg<V>,
    after: ExecAgg<V>,
    name: Seq<char>,
    stored: V,
)
    requires
        after@ == before@.insert(safe_name(name), stored),
    ensures
        after.lookup(safe_name(name)) == Some(&stored),
        forall|other: Seq<char>|
            safe_name(other) == safe_name(name) ==> after.lookup(safe_name(other)) == Some(&stored),
        forall|k: Seq<char>| k != safe_name(name) ==> #[trigger] after.lookup(k) == before.lookup(k),
{
}

} // verus!
