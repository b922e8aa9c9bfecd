//! Running statistics: how many records were seen in all, per facility, per
//! severity and per source.
//!
//! The counters live in one concurrent map from text keys to counts, a
//! `dashmap::DashMap`. What the map does is believed of the `dashmap` crate; what
//! this module makes of it is proved.

use vstd::prelude::*;
use vstd::string::*;
use dashmap::DashMap;
use std::collections::HashMap;
use crate::order::{is_leading, leading, listed, set_of, texts_of};
use crate::scan::{read_decimal, scan_run};
use crate::grammar::{lemma_run_end, Class};
use crate::text::{
    all_digits, chars_of, cut, decimal_text, decimal_value, is_digit, lemma_decimal_canonical,
    lemma_decimal_text, push_decimal,
};

verus! {

/// The concurrent map of the `dashmap` crate, taken as it is: nothing of its
/// inside is known here.
#[verifier::external_type_specification]
#[verifier::external_body]
#[verifier::reject_recursive_types(K)]
#[verifier::reject_recursive_types(V)]
#[verifier::reject_recursive_types(S)]
pub struct ExDashMap<K, V, S>(DashMap<K, V, S>);

/// What a counter map holds: the count under each key.
pub uninterp spec fn counts_of(m: DashMap<String, u64>) -> Map<Seq<char>, u64>;

/// No key, no count.
pub open spec fn no_counts() -> Map<Seq<char>, u64> {
    Map::empty()
}

/// One more than `c`, or `c` where the counter is full.
pub open spec fn next_count(c: u64) -> u64 {
    if c < u64::MAX {
        (c + 1) as u64
    } else {
        c
    }
}

/// The count under `key` after one more occurrence of it.
pub open spec fn bumped<K>(m: Map<K, u64>, key: K) -> u64 {
    if m.dom().contains(key) {
        next_count(m[key])
    } else {
        1
    }
}

/// The counts after one more occurrence of `key`.
pub open spec fn bump<K>(m: Map<K, u64>, key: K) -> Map<K, u64> {
    m.insert(key, bumped(m, key))
}

/// One more than `c`, or `c` where the counter is full.
pub fn count_after(c: u64) -> (n: u64)
    ensures
        n == next_count(c),
{
    if c < u64::MAX {
        c + 1
    } else {
        c
    }
}

/// `dashmap::DashMap::new`: an empty map.
#[verifier::external_body]
fn counters_new() -> (m: DashMap<String, u64>)
    ensures
        counts_of(m) == no_counts(),
{
    DashMap::new()
}

/// `DashMap::entry`, then `Entry::and_modify` and `Entry::or_insert`: the value
/// under `key` is replaced by its successor where the key is present, and set
/// to 1 where it is not; no other entry changes.
#[verifier::external_body]
fn counters_bump(m: &mut DashMap<String, u64>, key: String)
    ensures
        counts_of(*final(m)) == bump(counts_of(*old(m)), key@),
{
    m.entry(key).and_modify(|c| *c = count_after(*c)).or_insert(1);
}

/// `DashMap::clear`: no entry is left.
#[verifier::external_body]
fn counters_clear(m: &mut DashMap<String, u64>)
    ensures
        counts_of(*final(m)) == no_counts(),
{
    m.clear();
}

/// The key under which a facility is counted.
pub open spec fn facility_key(facility: u8) -> Seq<char> {
    "facility_"@ + decimal_text(facility as nat)
}

/// The key under which a severity is counted.
pub open spec fn severity_key(severity: u8) -> Seq<char> {
    "severity_"@ + decimal_text(severity as nat)
}

/// The key under which a source address is counted.
pub open spec fn source_key(source: Seq<char>) -> Seq<char> {
    "source_"@ + source
}

/// No two of the keys coincide: different facilities, severities and sources
/// have different keys, and the three kinds of key never meet.
pub proof fn lemma_keys_apart()
    ensures
        forall|a: u8, b: u8| #[trigger] facility_key(a) == #[trigger] facility_key(b) ==> a == b,
        forall|a: u8, b: u8| #[trigger] severity_key(a) == #[trigger] severity_key(b) ==> a == b,
        forall|a: Seq<char>, b: Seq<char>| #[trigger]
            source_key(a) == #[trigger] source_key(b) ==> a == b,
        forall|a: u8, b: u8| #[trigger] facility_key(a) != #[trigger] severity_key(b),
        forall|a: u8, b: Seq<char>| #[trigger] facility_key(a) != #[trigger] source_key(b),
        forall|a: u8, b: Seq<char>| #[trigger] severity_key(a) != #[trigger] source_key(b),
{
    reveal_strlit("facility_");
    reveal_strlit("severity_");
    reveal_strlit("source_");
    assert forall|a: u8, b: u8| #[trigger] facility_key(a) == #[trigger] facility_key(b) implies a
        == b by {
        lemma_decimal_text(a as nat);
        lemma_decimal_text(b as nat);
        assert(facility_key(a).subrange(9, facility_key(a).len() as int) =~= decimal_text(
            a as nat,
        ));
        assert(facility_key(b).subrange(9, facility_key(b).len() as int) =~= decimal_text(
            b as nat,
        ));
    }
    assert forall|a: u8, b: u8| #[trigger] severity_key(a) == #[trigger] severity_key(b) implies a
        == b by {
        lemma_decimal_text(a as nat);
        lemma_decimal_text(b as nat);
        assert(severity_key(a).subrange(9, severity_key(a).len() as int) =~= decimal_text(
            a as nat,
        ));
        assert(severity_key(b).subrange(9, severity_key(b).len() as int) =~= decimal_text(
            b as nat,
        ));
    }
    assert forall|a: Seq<char>, b: Seq<char>| #[trigger]
        source_key(a) == #[trigger] source_key(b) implies a == b by {
        assert(source_key(a).subrange(7, source_key(a).len() as int) =~= a);
        assert(source_key(b).subrange(7, source_key(b).len() as int) =~= b);
    }
    assert forall|a: u8, b: u8| #[trigger] facility_key(a) != #[trigger] severity_key(b) by {
        assert(facility_key(a)[0] == 'f' && severity_key(b)[0] == 's');
    }
    assert forall|a: u8, b: Seq<char>| #[trigger] facility_key(a) != #[trigger] source_key(b) by {
        assert(facility_key(a)[0] == 'f' && source_key(b)[0] == 's');
    }
    assert forall|a: u8, b: Seq<char>| #[trigger] severity_key(a) != #[trigger] source_key(b) by {
        assert(severity_key(a)[1] == 'e' && source_key(b)[1] == 'o');
    }
}

fn facility_key_text(facility: u8) -> (k: String)
    ensures
        k@ == facility_key(facility),
{
    let mut k = "facility_".to_owned();
    push_decimal(&mut k, facility as u64);
    k
}

fn severity_key_text(severity: u8) -> (k: String)
    ensures
        k@ == severity_key(severity),
{
    let mut k = "severity_".to_owned();
    push_decimal(&mut k, severity as u64);
    k
}

fn source_key_text(source: &str) -> (k: String)
    ensures
        k@ == source_key(source@),
{
    let mut k = "source_".to_owned();
    k.append(source);
    k
}

/// The statistics as mathematics.
pub struct StatsView {
    pub total: u64,
    pub per_facility: Map<u8, u64>,
    pub per_severity: Map<u8, u64>,
    pub per_source: Map<Seq<char>, u64>,
}

/// What the counters under the three kinds of key say.
pub open spec fn view_of(total: u64, counts: Map<Seq<char>, u64>) -> StatsView {
    StatsView {
        total,
        per_facility: Map::new(
            |f: u8| counts.dom().contains(facility_key(f)),
            |f: u8| counts[facility_key(f)],
        ),
        per_severity: Map::new(
            |s: u8| counts.dom().contains(severity_key(s)),
            |s: u8| counts[severity_key(s)],
        ),
        per_source: Map::new(
            |a: Seq<char>| counts.dom().contains(source_key(a)),
            |a: Seq<char>| counts[source_key(a)],
        ),
    }
}

/// Statistics in which nothing has been counted.
pub open spec fn no_stats() -> StatsView {
    StatsView {
        total: 0,
        per_facility: Map::empty(),
        per_severity: Map::empty(),
        per_source: Map::empty(),
    }
}

/// The statistics after one more record of the given facility, severity and
/// source.
pub open spec fn counted(v: StatsView, facility: u8, severity: u8, source: Seq<char>) -> StatsView {
    StatsView {
        total: next_count(v.total),
        per_facility: bump(v.per_facility, facility),
        per_severity: bump(v.per_severity, severity),
        per_source: bump(v.per_source, source),
    }
}

proof fn lemma_view_of_empty()
    ensures
        view_of(0, no_counts()) == no_stats(),
{
    let v = view_of(0, no_counts());
    assert(v.per_facility =~= Map::empty());
    assert(v.per_severity =~= Map::empty());
    assert(v.per_source =~= Map::empty());
}

#[verifier::rlimit(40)]
proof fn lemma_view_of_counted(
    total: u64,
    counts: Map<Seq<char>, u64>,
    facility: u8,
    severity: u8,
    source: Seq<char>,
)
    ensures
        view_of(
            next_count(total),
            bump(
                bump(bump(counts, facility_key(facility)), severity_key(severity)),
                source_key(source),
            ),
        ) == counted(view_of(total, counts), facility, severity, source),
{
    lemma_keys_apart();
    let after = view_of(
        next_count(total),
        bump(
            bump(bump(counts, facility_key(facility)), severity_key(severity)),
            source_key(source),
        ),
    );
    let want = counted(view_of(total, counts), facility, severity, source);
    assert(after.per_facility =~= want.per_facility);
    assert(after.per_severity =~= want.per_severity);
    assert(after.per_source =~= want.per_source);
}

/// The running statistics.
pub struct Stats {
    total: u64,
    counters: DashMap<String, u64>,
}

impl View for Stats {
    type V = StatsView;

    closed spec fn view(&self) -> StatsView {
        view_of(self.total, counts_of(self.counters))
    }
}

impl Stats {
    /// Statistics in which nothing has been counted.
    pub fn new() -> (s: Self)
        ensures
            s@ == no_stats(),
    {
        proof {
            lemma_view_of_empty();
        }
        Stats { total: 0, counters: counters_new() }
    }

    /// Counts one record.
    pub fn record(&mut self, facility: u8, severity: u8, source_ip: &str)
        ensures
            final(self)@ == counted(old(self)@, facility, severity, source_ip@),
    {
        proof {
            lemma_view_of_counted(
                self.total,
                counts_of(self.counters),
                facility,
                severity,
                source_ip@,
            );
        }
        self.total = count_after(self.total);
        counters_bump(&mut self.counters, facility_key_text(facility));
        counters_bump(&mut self.counters, severity_key_text(severity));
        counters_bump(&mut self.counters, source_key_text(source_ip));
    }

    /// Forgets everything that was counted.
    pub fn clear(&mut self)
        ensures
            final(self)@ == no_stats(),
    {
        proof {
            lemma_view_of_empty();
        }
        self.total = 0;
        counters_clear(&mut self.counters);
    }
}

/// Whether `entries` lists what `counts` holds: every key with its count, and
/// nothing else, in no particular order.
pub open spec fn lists(entries: Seq<(String, u64)>, counts: Map<Seq<char>, u64>) -> bool {
    &&& forall|i: int|
        0 <= i < entries.len() ==> counts.dom().contains((#[trigger] entries[i]).0@)
            && counts[entries[i].0@] == entries[i].1
    &&& forall|k: Seq<char>| #[trigger]
        counts.dom().contains(k) ==> exists|i: int|
            0 <= i < entries.len() && (#[trigger] entries[i]).0@ == k
}

/// `DashMap::iter`, each item copied out with `key()` and `value()`: what comes
/// out are the entries of the map, all of them. The order in which they come
/// is not stated.
#[verifier::external_body]
fn counters_entries(m: &DashMap<String, u64>) -> (v: Vec<(String, u64)>)
    ensures
        lists(v@, counts_of(*m)),
{
    m.iter().map(|e| (e.key().clone(), *e.value())).collect()
}

/// What a key of the counter map counts.
#[derive(Debug)]
pub enum CounterKey {
    Facility(u8),
    Severity(u8),
    Source(String),
    /// Not a key that `record` makes.
    Other,
}

/// Whether `kind` says what `key` counts.
pub open spec fn names(kind: CounterKey, key: Seq<char>) -> bool {
    match kind {
        CounterKey::Facility(f) => key == facility_key(f),
        CounterKey::Severity(s) => key == severity_key(s),
        CounterKey::Source(a) => key == source_key(a@),
        CounterKey::Other => {
            &&& forall|f: u8| key != #[trigger] facility_key(f)
            &&& forall|s: u8| key != #[trigger] severity_key(s)
            &&& forall|a: Seq<char>| key != #[trigger] source_key(a)
        },
    }
}

/// Whether `cs` opens with `prefix`.
fn opens_with(cs: &[char], prefix: &str) -> (b: bool)
    ensures
        b == (prefix@.len() <= cs@.len() && cs@.subrange(0, prefix@.len() as int) == prefix@),
{
    let p = chars_of(prefix);
    if p.len() > cs.len() {
        return false;
    }
    let mut i: usize = 0;
    while i < p.len()
        invariant
            i <= p.len() <= cs.len(),
            p@ == prefix@,
            cs@.subrange(0, i as int) == p@.subrange(0, i as int),
        decreases p.len() - i,
    {
        if cs[i] != p[i] {
            assert(cs@.subrange(0, p.len() as int)[i as int] != p@[i as int]);
            return false;
        }
        assert(cs@.subrange(0, i + 1) =~= cs@.subrange(0, i as int).push(cs@[i as int]));
        assert(p@.subrange(0, i + 1) =~= p@.subrange(0, i as int).push(p@[i as int]));
        i = i + 1;
    }
    assert(p@.subrange(0, p.len() as int) =~= p@);
    true
}

/// The number below 256 whose decimal text stands in `from..to`.
fn read_count_label(cs: &[char], from: usize, to: usize) -> (r: Option<u8>)
    requires
        from <= to <= cs.len(),
    ensures
        match r {
            Some(v) => cs@.subrange(from as int, to as int) == decimal_text(v as nat),
            None => forall|v: u8| cs@.subrange(from as int, to as int) != #[trigger] decimal_text(
                v as nat,
            ),
        },
{
    let ghost s = cs@.subrange(from as int, to as int);
    proof {
        assert forall|v: u8| true implies decimal_text(v as nat).len() >= 1 && all_digits(
            #[trigger] decimal_text(v as nat),
        ) && decimal_value(decimal_text(v as nat)) == v && (decimal_text(v as nat).len() == 1
            || decimal_text(v as nat)[0] != '0') by {
            lemma_decimal_text(v as nat);
        }
    }
    if from == to {
        return None;
    }
    let e = scan_run(cs, from, Class::Digit);
    proof {
        lemma_run_end(cs@, from as int, Class::Digit);
    }
    if e < to {
        assert(!is_digit(s[e - from]));
        return None;
    }
    assert(all_digits(s));
    if to - from > 1 && cs[from] == '0' {
        assert(s[0] == '0');
        return None;
    }
    proof {
        lemma_decimal_canonical(s);
    }
    read_decimal(cs, from, to)
}

/// Tells what a key of the counter map counts.
#[verifier::rlimit(40)]
pub fn classify(key: &str) -> (kind: CounterKey)
    ensures
        names(kind, key@),
{
    let cs = chars_of(key);
    let n = cs.len();
    proof {
        reveal_strlit("facility_");
        reveal_strlit("severity_");
        reveal_strlit("source_");
    }
    if opens_with(cs.as_slice(), "facility_") {
        assert forall|s: u8| key@ != #[trigger] severity_key(s) by {
            assert(key@.subrange(0, 9)[0] == 'f');
        }
        assert forall|a: Seq<char>| key@ != #[trigger] source_key(a) by {
            assert(key@.subrange(0, 9)[0] == 'f');
        }
        match read_count_label(cs.as_slice(), 9, n) {
            Some(f) => {
                assert(key@ =~= facility_key(f));
                CounterKey::Facility(f)
            },
            None => {
                assert forall|f: u8| key@ != #[trigger] facility_key(f) by {
                    assert(facility_key(f).subrange(9, facility_key(f).len() as int)
                        =~= decimal_text(f as nat));
                }
                CounterKey::Other
            },
        }
    } else if opens_with(cs.as_slice(), "severity_") {
        assert forall|f: u8| key@ != #[trigger] facility_key(f) by {
            assert(key@.subrange(0, 9)[0] == 's');
        }
        assert forall|a: Seq<char>| key@ != #[trigger] source_key(a) by {
            assert(key@.subrange(0, 9)[1] == 'e');
        }
        match read_count_label(cs.as_slice(), 9, n) {
            Some(s) => {
                assert(key@ =~= severity_key(s));
                CounterKey::Severity(s)
            },
            None => {
                assert forall|s: u8| key@ != #[trigger] severity_key(s) by {
                    assert(severity_key(s).subrange(9, severity_key(s).len() as int)
                        =~= decimal_text(s as nat));
                }
                CounterKey::Other
            },
        }
    } else if opens_with(cs.as_slice(), "source_") {
        let a = cut(key, 7, n);
        assert(key@ =~= source_key(a@));
        CounterKey::Source(a)
    } else {
        assert forall|f: u8| key@ != #[trigger] facility_key(f) by {
            assert(facility_key(f).subrange(0, 9) =~= "facility_"@);
        }
        assert forall|s: u8| key@ != #[trigger] severity_key(s) by {
            assert(severity_key(s).subrange(0, 9) =~= "severity_"@);
        }
        assert forall|a: Seq<char>| key@ != #[trigger] source_key(a) by {
            assert(source_key(a).subrange(0, 7) =~= "source_"@);
        }
        CounterKey::Other
    }
}

/// The statistics at one moment, as they are reported.
#[derive(Debug)]
pub struct StatsSnapshot {
    pub total_messages: u64,
    pub messages_per_facility: HashMap<u8, u64>,
    pub messages_per_severity: HashMap<u8, u64>,
    /// The first sources in the order of their texts.
    pub recent_sources: Vec<String>,
}

/// How many sources a snapshot names at most.
pub const SOURCE_LIMIT: usize = 10;

/// Whether `snap` reports the statistics `v`: the total, the count of every
/// facility and severity seen, and the first ten sources in the order of their
/// texts, or all of them where they are fewer.
pub open spec fn reports(snap: StatsSnapshot, v: StatsView) -> bool {
    &&& snap.total_messages == v.total
    &&& snap.messages_per_facility@ == v.per_facility
    &&& snap.messages_per_severity@ == v.per_severity
    &&& is_leading(texts_of(snap.recent_sources@), v.per_source.dom(), SOURCE_LIMIT as nat)
}

/// Whether one of the first `n` entries stands under `key`.
pub open spec fn seen(entries: Seq<(String, u64)>, n: int, key: Seq<char>) -> bool {
    exists|i: int| 0 <= i < n && (#[trigger] entries[i]).0@ == key
}

impl Stats {
    /// The statistics as they stand.
    #[verifier::rlimit(40)]
    pub fn snapshot(&self) -> (snap: StatsSnapshot)
        ensures
            reports(snap, self@),
    {
        broadcast use vstd::std_specs::hash::group_hash_axioms;

        let entries = counters_entries(&self.counters);
        let ghost counts = counts_of(self.counters);
        let ghost e = entries@;
        let mut per_facility: HashMap<u8, u64> = HashMap::new();
        let mut per_severity: HashMap<u8, u64> = HashMap::new();
        let mut sources: Vec<String> = Vec::new();
        let mut n: usize = 0;
        while n < entries.len()
            invariant
                n <= entries.len(),
                e == entries@,
                lists(e, counts),
                forall|f: u8|
                    #![trigger per_facility@.dom().contains(f)]
                    #![trigger seen(e, n as int, facility_key(f))]
                    per_facility@.dom().contains(f) <==> seen(e, n as int, facility_key(f)),
                forall|f: u8| #[trigger]
                    per_facility@.dom().contains(f) ==> per_facility@[f] == counts[facility_key(f)],
                forall|s: u8|
                    #![trigger per_severity@.dom().contains(s)]
                    #![trigger seen(e, n as int, severity_key(s))]
                    per_severity@.dom().contains(s) <==> seen(e, n as int, severity_key(s)),
                forall|s: u8| #[trigger]
                    per_severity@.dom().contains(s) ==> per_severity@[s] == counts[severity_key(s)],
                forall|a: Seq<char>|
                    #![trigger listed(texts_of(sources@), a)]
                    #![trigger seen(e, n as int, source_key(a))]
                    listed(texts_of(sources@), a) <==> seen(e, n as int, source_key(a)),
            decreases entries.len() - n,
        {
            let ghost key = e[n as int].0@;
            let ghost old_sources = texts_of(sources@);
            proof {
                lemma_keys_apart();
            }
            assert forall|k: Seq<char>| #[trigger]
                seen(e, n + 1, k) <==> seen(e, n as int, k) || k == key by {
                if seen(e, n + 1, k) {
                    let i = choose|i: int| 0 <= i < n + 1 && (#[trigger] e[i]).0@ == k;
                    if i < n {
                        assert(seen(e, n as int, k));
                    }
                }
                if seen(e, n as int, k) {
                    let i = choose|i: int| 0 <= i < n && (#[trigger] e[i]).0@ == k;
                    assert(0 <= i < n + 1 && e[i].0@ == k);
                }
                if k == key {
                    assert(e[n as int].0@ == k);
                }
            }
            let count = entries[n].1;
            match classify(entries[n].0.as_str()) {
                CounterKey::Facility(f) => {
                    per_facility.insert(f, count);
                },
                CounterKey::Severity(s) => {
                    per_severity.insert(s, count);
                },
                CounterKey::Source(a) => {
                    let ghost at = a@;
                    sources.push(a);
                    let ghost new_sources = texts_of(sources@);
                    assert(new_sources =~= old_sources.push(at));
                    assert forall|b: Seq<char>| #[trigger]
                        listed(new_sources, b) <==> listed(old_sources, b) || b == at by {
                        if listed(new_sources, b) {
                            let j = choose|j: int| 0 <= j < new_sources.len() && new_sources[j] == b;
                            if j < old_sources.len() {
                                assert(old_sources[j] == b);
                            }
                        }
                        if listed(old_sources, b) {
                            let j = choose|j: int| 0 <= j < old_sources.len() && old_sources[j] == b;
                            assert(new_sources[j] == b);
                        }
                        if b == at {
                            assert(new_sources[old_sources.len() as int] == b);
                        }
                    }
                },
                CounterKey::Other => {},
            }
            n = n + 1;
        }
        let recent_sources = leading(&sources, SOURCE_LIMIT);
        proof {
            let v = self@;
            assert forall|k: Seq<char>| counts.dom().contains(k) <==> seen(
                e,
                e.len() as int,
                k,
            ) by {
                if counts.dom().contains(k) {
                    let i = choose|i: int| 0 <= i < e.len() && (#[trigger] e[i]).0@ == k;
                    assert(seen(e, e.len() as int, k));
                }
                if seen(e, e.len() as int, k) {
                    let i = choose|i: int| 0 <= i < e.len() && (#[trigger] e[i]).0@ == k;
                    assert(counts.dom().contains(e[i].0@));
                }
            }
            assert(per_facility@ =~= v.per_facility);
            assert(per_severity@ =~= v.per_severity);
            assert(set_of(texts_of(sources@)) =~= v.per_source.dom());
        }
        StatsSnapshot {
            total_messages: self.total,
            messages_per_facility: per_facility,
            messages_per_severity: per_severity,
            recent_sources,
        }
    }
}

/// A snapshot of statistics in which nothing has been counted reports a total
/// of zero, no facility, no severity and no source.
pub proof fn lemma_empty_snapshot(snap: StatsSnapshot)
    requires
        reports(snap, no_stats()),
    ensures
        snap.total_messages == 0,
        snap.messages_per_facility@ == Map::<u8, u64>::empty(),
        snap.messages_per_severity@ == Map::<u8, u64>::empty(),
        snap.recent_sources@.len() == 0,
{
    let list = texts_of(snap.recent_sources@);
    if list.len() > 0 {
        assert(no_stats().per_source.dom().contains(list[0]));
    }
}

} // verus!
