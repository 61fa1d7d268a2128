//! The topology parser: reads the per-logical-CPU description (lines
//! of colon-delimited `key : value` pairs) and sums the reported core
//! counts over the distinct physical packages.
//!
//! The pairing scheme is `physical id` with `cpu cores`: the scan
//! tracks the most recently seen value of each, and whenever both have
//! been seen since the last flush it records `physical id -> cores`
//! (a later entry for the same physical id overwrites the earlier one)
//! and resets the pair.  Lines with other keys — `core id` among them —
//! carry no information for this scheme.  A value that does not parse
//! stops the scan, keeping what was recorded before it.

use vstd::prelude::*;

use crate::cache;
use crate::cache::CpuCache;
use crate::text;

verus! {

/// The scan's state: what has been recorded, the pending pair, and
/// whether a malformed value stopped the scan.
pub ghost struct TopoState {
    /// The recorded `physical id -> cores` pairs, in first-seen order,
    /// one entry per distinct physical id.
    pub entries: Seq<(u32, usize)>,
    pub physid: Option<u32>,
    pub cores: Option<usize>,
    pub stopped: bool,
}

/// Records `k -> v`, overwriting the entry with key `k` in place if
/// one exists and appending otherwise.
pub open spec fn upsert_spec(s: Seq<(u32, usize)>, k: u32, v: usize) -> Seq<(u32, usize)>
    decreases s.len(),
{
    if s.len() == 0 {
        seq![(k, v)]
    } else if s[0].0 == k {
        seq![(k, v)] + s.drop_first()
    } else {
        seq![s[0]] + upsert_spec(s.drop_first(), k, v)
    }
}

pub open spec fn topo_start() -> TopoState {
    TopoState { entries: Seq::empty(), physid: None, cores: None, stopped: false }
}

/// Flushes the pending pair when both halves are present.
pub open spec fn topo_record(
    entries: Seq<(u32, usize)>,
    physid: Option<u32>,
    cores: Option<usize>,
) -> TopoState {
    match (physid, cores) {
        (Some(p), Some(c)) => TopoState {
            entries: upsert_spec(entries, p, c),
            physid: None,
            cores: None,
            stopped: false,
        },
        _ => TopoState { entries, physid, cores, stopped: false },
    }
}

/// A `physical id` value: parsed as the standard library parses a
/// `u32`; anything malformed or out of range stops the scan.
pub open spec fn u32_field(s: Seq<char>) -> Option<u32> {
    match text::parse_dec(s) {
        Some(n) => if n <= u32::MAX {
            Some(n as u32)
        } else {
            None
        },
        None => None,
    }
}

/// A `cpu cores` value: parsed as the standard library parses a
/// `usize`.
pub open spec fn usize_field(s: Seq<char>) -> Option<usize> {
    match text::parse_dec(s) {
        Some(n) => if n <= usize::MAX {
            Some(n as usize)
        } else {
            None
        },
        None => None,
    }
}

/// One line of the scan.  A line without a colon is skipped; the key
/// is what stands before the first colon and the value what stands
/// between the first and a second colon, both trimmed.
pub open spec fn topo_step(st: TopoState, line: Seq<char>) -> TopoState {
    if st.stopped {
        st
    } else {
        let f = text::split_seq(line, ':');
        if f.len() < 2 {
            st
        } else {
            let key = text::trim_seq(f[0]);
            let value = text::trim_seq(f[1]);
            if key == "physical id"@ {
                match u32_field(value) {
                    Some(v) => topo_record(st.entries, Some(v), st.cores),
                    None => TopoState {
                        entries: st.entries,
                        physid: st.physid,
                        cores: st.cores,
                        stopped: true,
                    },
                }
            } else if key == "cpu cores"@ {
                match usize_field(value) {
                    Some(v) => topo_record(st.entries, st.physid, Some(v)),
                    None => TopoState {
                        entries: st.entries,
                        physid: st.physid,
                        cores: st.cores,
                        stopped: true,
                    },
                }
            } else {
                st
            }
        }
    }
}

/// The scan's state after all the given lines.
pub open spec fn topo_scan(lines: Seq<Seq<char>>) -> TopoState
    decreases lines.len(),
{
    if lines.len() == 0 {
        topo_start()
    } else {
        topo_step(topo_scan(lines.drop_last()), lines.last())
    }
}

/// The sum of the recorded core counts.
pub open spec fn cores_sum(s: Seq<(u32, usize)>) -> int
    decreases s.len(),
{
    if s.len() == 0 {
        0
    } else {
        cores_sum(s.drop_last()) + s.last().1
    }
}

/// What the whole description adds up to: the core counts of the
/// distinct physical packages, summed.
pub open spec fn physical_count_spec(lines: Seq<Seq<char>>) -> int {
    cores_sum(topo_scan(lines).entries)
}

proof fn lemma_scan_stopped(lines: Seq<Seq<char>>, k: int)
    requires
        0 <= k <= lines.len(),
        topo_scan(lines.take(k)).stopped,
    ensures
        topo_scan(lines) == topo_scan(lines.take(k)),
    decreases lines.len() - k,
{
    if k < lines.len() {
        assert(lines.take(k + 1).drop_last() =~= lines.take(k));
        assert(lines.take(k + 1).last() == lines[k]);
        lemma_scan_stopped(lines, k + 1);
    } else {
        assert(lines.take(k) =~= lines);
    }
}

proof fn lemma_upsert_update(s: Seq<(u32, usize)>, k: u32, v: usize, j: int)
    requires
        0 <= j < s.len(),
        s[j].0 == k,
        forall|l: int| 0 <= l < j ==> s[l].0 != k,
    ensures
        upsert_spec(s, k, v) == s.update(j, (k, v)),
    decreases j,
{
    if j == 0 {
        assert(upsert_spec(s, k, v) =~= s.update(0, (k, v)));
    } else {
        let t = s.drop_first();
        assert(forall|l: int| 0 <= l < j - 1 ==> t[l].0 != k);
        lemma_upsert_update(t, k, v, j - 1);
        assert(seq![s[0]] + t.update(j - 1, (k, v)) =~= s.update(j, (k, v)));
    }
}

proof fn lemma_upsert_push(s: Seq<(u32, usize)>, k: u32, v: usize)
    requires
        forall|l: int| 0 <= l < s.len() ==> s[l].0 != k,
    ensures
        upsert_spec(s, k, v) == s.push((k, v)),
    decreases s.len(),
{
    if s.len() == 0 {
        assert(upsert_spec(s, k, v) =~= s.push((k, v)));
    } else {
        let t = s.drop_first();
        assert(forall|l: int| 0 <= l < t.len() ==> t[l].0 != k);
        lemma_upsert_push(t, k, v);
        assert(seq![s[0]] + t.push((k, v)) =~= s.push((k, v)));
    }
}

proof fn lemma_cores_sum_nonneg(s: Seq<(u32, usize)>)
    ensures
        cores_sum(s) >= 0,
    decreases s.len(),
{
    if s.len() > 0 {
        lemma_cores_sum_nonneg(s.drop_last());
    }
}

/// Recording more packages never shrinks the sum.
proof fn lemma_cores_sum_prefix(s: Seq<(u32, usize)>, k: int)
    requires
        0 <= k <= s.len(),
    ensures
        cores_sum(s.take(k)) <= cores_sum(s),
    decreases s.len() - k,
{
    if k == s.len() {
        assert(s.take(k) =~= s);
    } else {
        let t = s.drop_last();
        assert(t.take(k) =~= s.take(k));
        lemma_cores_sum_prefix(t, k);
    }
}

fn parse_u32_field(s: &str) -> (r: Option<u32>)
    ensures
        r == u32_field(s@),
{
    match text::parse_usize(s) {
        Some(v) => {
            if v <= u32::MAX as usize {
                Some(v as u32)
            } else {
                None
            }
        },
        None => None,
    }
}

fn parse_usize_field(s: &str) -> (r: Option<usize>)
    ensures
        r == usize_field(s@),
{
    text::parse_usize(s)
}

fn upsert(entries: &mut Vec<(u32, usize)>, k: u32, v: usize)
    ensures
        final(entries)@ == upsert_spec(old(entries)@, k, v),
{
    let mut j: usize = 0;
    while j < entries.len()
        invariant
            j <= entries.len(),
            *entries == *old(entries),
            forall|l: int| 0 <= l < j ==> entries@[l].0 != k,
        decreases entries.len() - j,
    {
        if entries[j].0 == k {
            entries.set(j, (k, v));
            proof {
                lemma_upsert_update(old(entries)@, k, v, j as int);
            }
            return ;
        }
        j = j + 1;
    }
    entries.push((k, v));
    proof {
        lemma_upsert_push(old(entries)@, k, v);
    }
}

/// Scans the description and sums the recorded core counts; `None`
/// when the sum does not fit a machine word.
fn sum_cpuinfo_cores(lines: &Vec<String>) -> (r: Option<usize>)
    ensures
        match r {
            Some(v) => v as int == physical_count_spec(lines.deep_view()),
            None => physical_count_spec(lines.deep_view()) > usize::MAX,
        },
{
    let ghost lv = lines.deep_view();
    let mut entries: Vec<(u32, usize)> = Vec::new();
    let mut physid: Option<u32> = None;
    let mut cores: Option<usize> = None;
    let mut i: usize = 0;
    proof {
        assert(lv.take(0) =~= Seq::<Seq<char>>::empty());
        assert(lv.take(lines@.len() as int) =~= lv);
    }
    while i < lines.len()
        invariant_except_break
            lv == lines.deep_view(),
            lv == lv.take(lines@.len() as int),
            i <= lines.len(),
            !topo_scan(lv.take(i as int)).stopped,
            entries@ == topo_scan(lv.take(i as int)).entries,
            physid == topo_scan(lv.take(i as int)).physid,
            cores == topo_scan(lv.take(i as int)).cores,
        ensures
            entries@ == topo_scan(lv).entries,
        decreases lines.len() - i,
    {
        let ghost st = topo_scan(lv.take(i as int));
        proof {
            assert(lv[i as int] == lines@[i as int]@);
            assert(lv.take(i as int + 1).drop_last() =~= lv.take(i as int));
            assert(lv.take(i as int + 1).last() == lv[i as int]);
            assert(topo_scan(lv.take(i as int + 1)) == topo_step(st, lv[i as int]));
        }
        let line = lines[i].as_str();
        let fields = text::split_str(line, ':');
        if fields.len() >= 2 {
            proof {
                assert(fields.deep_view()[0] == fields@[0]@);
                assert(fields.deep_view()[1] == fields@[1]@);
            }
            let key = text::trim_str(fields[0]);
            let value = text::trim_str(fields[1]);
            if text::str_eq(key, "physical id") {
                match parse_u32_field(value) {
                    Some(v) => {
                        match cores {
                            Some(c) => {
                                upsert(&mut entries, v, c);
                                physid = None;
                                cores = None;
                            },
                            None => {
                                physid = Some(v);
                            },
                        }
                    },
                    None => {
                        proof {
                            assert(topo_scan(lv.take(i as int + 1)).stopped);
                            assert(topo_scan(lv.take(i as int + 1)).entries == entries@);
                            lemma_scan_stopped(lv, i as int + 1);
                        }
                        break ;
                    },
                }
            } else if text::str_eq(key, "cpu cores") {
                match parse_usize_field(value) {
                    Some(v) => {
                        match physid {
                            Some(p) => {
                                upsert(&mut entries, p, v);
                                physid = None;
                                cores = None;
                            },
                            None => {
                                cores = Some(v);
                            },
                        }
                    },
                    None => {
                        proof {
                            assert(topo_scan(lv.take(i as int + 1)).stopped);
                            assert(topo_scan(lv.take(i as int + 1)).entries == entries@);
                            lemma_scan_stopped(lv, i as int + 1);
                        }
                        break ;
                    },
                }
            }
        }
        i = i + 1;
    }
    let ghost recorded = topo_scan(lv).entries;
    let mut sum: usize = 0;
    let mut j: usize = 0;
    proof {
        assert(recorded.take(0) =~= Seq::<(u32, usize)>::empty());
    }
    while j < entries.len()
        invariant
            entries@ == recorded,
            recorded == topo_scan(lines.deep_view()).entries,
            j <= entries.len(),
            sum as int == cores_sum(recorded.take(j as int)),
        decreases entries.len() - j,
    {
        let ghost pre = recorded.take(j as int);
        let ghost cur = recorded.take(j as int + 1);
        proof {
            assert(cur.drop_last() =~= pre);
            assert(cur.last() == recorded[j as int]);
        }
        let c = entries[j].1;
        sum = match sum.checked_add(c) {
            Some(v) => v,
            None => {
                proof {
                    lemma_cores_sum_prefix(recorded, j as int + 1);
                }
                return None;
            },
        };
        j = j + 1;
    }
    proof {
        assert(recorded.take(recorded.len() as int) =~= recorded);
    }
    Some(sum)
}

/// The number of physical cores described by the topology source, or
/// the logical count where the source is absent or adds up to nothing.
///
/// The relation `physical <= logical` is *not* an invariant in either
/// direction: hardware multithreading makes the physical count the
/// smaller one, while a topology source that is absent or malformed
/// makes the two equal by falling back to the logical count.
pub fn get_num_physical_cpus(
    cpuinfo: Option<&Vec<String>>,
    cache: &CpuCache,
    logical: usize,
) -> (r: usize)
    requires
        logical >= 1,
    ensures
        r >= 1,
        match cpuinfo {
            Some(lines) => ({
                let total = physical_count_spec(lines.deep_view());
                if 0 < total <= usize::MAX {
                    r == total
                } else {
                    r == cache::spec_num_cpus(*cache, logical)
                }
            }),
            None => r == cache::spec_num_cpus(*cache, logical),
        },
{
    match cpuinfo {
        Some(lines) => {
            proof {
                lemma_cores_sum_nonneg(topo_scan(lines.deep_view()).entries);
            }
            match sum_cpuinfo_cores(lines) {
                Some(count) => {
                    if count == 0 {
                        cache::get_num_cpus(cache, logical)
                    } else {
                        count
                    }
                },
                None => cache::get_num_cpus(cache, logical),
            }
        },
        None => cache::get_num_cpus(cache, logical),
    }
}

} // verus!
