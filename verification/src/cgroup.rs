//! The control-group quota resolver: finds the `cpu` controller's
//! path in the process's cgroup-membership description, finds where
//! that hierarchy is mounted in the process's mount table, translates
//! the one through the other, and turns the quota and period parameters
//! read under the resolved directory into an effective CPU budget.
//!
//! Every stage degrades to `None` on missing or malformed input;
//! nothing here fails any harder than that.

use vstd::prelude::*;

use crate::text;

verus! {

/// The control-group path assigned to the `cpu` controller, as seen
/// from inside the process's own namespace.
pub struct Subsys {
    pub base: String,
}

/// Where a control-group hierarchy with the `cpu` controller is
/// mounted: the mount's root-relative path and its mount point.
pub struct MountInfo {
    pub root: String,
    pub mount_point: String,
}

/// The host-visible directory holding the `cpu` controller's quota
/// parameter files for this process.
pub struct Cgroup {
    pub base: String,
}

/// What one cgroup-membership line yields: lines are colon-delimited
/// `hierarchy:controllers:path`, and a line counts only when `cpu`
/// stands among the comma-separated controllers.
pub open spec fn subsys_parse_spec(line: Seq<char>) -> Option<Seq<char>> {
    let f = text::split_seq(line, ':');
    if f.len() >= 3 && text::split_seq(f[1], ',').contains("cpu"@) {
        Some(f[2])
    } else {
        None
    }
}

/// The first cgroup-membership line that yields a `cpu` path.
pub open spec fn subsys_first_spec(lines: Seq<Seq<char>>) -> Option<Seq<char>>
    decreases lines.len(),
{
    if lines.len() == 0 {
        None
    } else if subsys_parse_spec(lines[0]) is Some {
        subsys_parse_spec(lines[0])
    } else {
        subsys_first_spec(lines.drop_first())
    }
}

/// What one mount-table line yields: lines are space-delimited with the
/// mount's root at field 3 and its mount point at field 4; the line
/// counts only when field 8 is the filesystem type `cgroup` and `cpu`
/// stands among the comma-separated super options at field 10.
pub open spec fn mountinfo_parse_spec(line: Seq<char>) -> Option<(Seq<char>, Seq<char>)> {
    let f = text::split_seq(line, ' ');
    if f.len() >= 11 && f[8] == "cgroup"@ && text::split_seq(f[10], ',').contains("cpu"@) {
        Some((f[3], f[4]))
    } else {
        None
    }
}

/// The first mount-table line that yields a `cpu` cgroup mount.
pub open spec fn mountinfo_first_spec(lines: Seq<Seq<char>>) -> Option<(Seq<char>, Seq<char>)>
    decreases lines.len(),
{
    if lines.len() == 0 {
        None
    } else if mountinfo_parse_spec(lines[0]) is Some {
        mountinfo_parse_spec(lines[0])
    } else {
        mountinfo_first_spec(lines.drop_first())
    }
}

proof fn lemma_subsys_first_skip(lines: Seq<Seq<char>>, i: int)
    requires
        0 <= i <= lines.len(),
        forall|j: int| 0 <= j < i ==> subsys_parse_spec(lines[j]) is None,
    ensures
        subsys_first_spec(lines) == subsys_first_spec(lines.skip(i)),
    decreases i,
{
    if i == 0 {
        assert(lines.skip(0) =~= lines);
    } else {
        assert(subsys_parse_spec(lines[0]) is None);
        let t = lines.drop_first();
        assert(forall|j: int| 0 <= j < i - 1 ==> subsys_parse_spec(t[j]) is None);
        lemma_subsys_first_skip(t, i - 1);
        assert(t.skip(i - 1) =~= lines.skip(i));
    }
}

proof fn lemma_mountinfo_first_skip(lines: Seq<Seq<char>>, i: int)
    requires
        0 <= i <= lines.len(),
        forall|j: int| 0 <= j < i ==> mountinfo_parse_spec(lines[j]) is None,
    ensures
        mountinfo_first_spec(lines) == mountinfo_first_spec(lines.skip(i)),
    decreases i,
{
    if i == 0 {
        assert(lines.skip(0) =~= lines);
    } else {
        assert(mountinfo_parse_spec(lines[0]) is None);
        let t = lines.drop_first();
        assert(forall|j: int| 0 <= j < i - 1 ==> mountinfo_parse_spec(t[j]) is None);
        lemma_mountinfo_first_skip(t, i - 1);
        assert(t.skip(i - 1) =~= lines.skip(i));
    }
}

/// Keeps the non-empty pieces, in order: splitting a path on `/`
/// yields empty pieces around the leading separator, a trailing
/// separator or doubled separators, and those carry no path segment.
pub open spec fn nonempty_pieces(ps: Seq<Seq<char>>) -> Seq<Seq<char>>
    decreases ps.len(),
{
    if ps.len() == 0 {
        Seq::empty()
    } else {
        let rest = nonempty_pieces(ps.drop_last());
        if ps.last().len() > 0 {
            rest.push(ps.last())
        } else {
            rest
        }
    }
}

/// A path's segments: the non-empty pieces between `/` separators, so
/// `/docker/01abcd/` and `/docker/01abcd` carry the same segments.
pub open spec fn path_segments(s: Seq<char>) -> Seq<Seq<char>> {
    nonempty_pieces(text::split_seq(s, '/'))
}

pub open spec fn is_abs_path(s: Seq<char>) -> bool {
    s.len() > 0 && s[0] == '/'
}

/// `base` with `/<segment>` appended for each segment, in order.
pub open spec fn join_segments(base: Seq<char>, segs: Seq<Seq<char>>) -> Seq<char>
    decreases segs.len(),
{
    if segs.len() == 0 {
        base
    } else {
        join_segments(base + seq!['/'] + segs[0], segs.drop_first())
    }
}

/// Translating the controller's namespace path through the mount:
/// `root` must be a segment-wise path prefix of `base` (both absolute
/// or both relative); the segments of `base` past that prefix are
/// re-joined under `mount_point`.
pub open spec fn translate_spec(
    root: Seq<char>,
    mount_point: Seq<char>,
    base: Seq<char>,
) -> Option<Seq<char>> {
    if is_abs_path(base) == is_abs_path(root) && path_segments(root).is_prefix_of(
        path_segments(base),
    ) {
        Some(
            join_segments(
                mount_point,
                path_segments(base).skip(path_segments(root).len() as int),
            ),
        )
    } else {
        None
    }
}

/// A numeric parameter file's content: trimmed and parsed as the
/// standard library parses an unsigned machine word, so a missing
/// file, a malformed or negative value, and a value above
/// `usize::MAX` all count as "no parameter".
pub open spec fn param_spec(raw: Option<Seq<char>>) -> Option<int> {
    match raw {
        Some(s) => match text::parse_dec(text::trim_seq(s)) {
            Some(n) => if n <= usize::MAX {
                Some(n)
            } else {
                None
            },
            None => None,
        },
        None => None,
    }
}

/// The exact rational ceiling of `q / p`, for `p > 0`.
pub open spec fn div_ceil_spec(q: int, p: int) -> int {
    q / p + if q % p == 0 {
        0int
    } else {
        1int
    }
}

/// The effective CPU budget of a quota/period pair: `None` unless both
/// parse, `None` on a zero period (no limit is configured and nothing
/// may be divided by it), else the ceiling of quota over period, so a
/// quota below one full period still counts as one CPU.
pub open spec fn quota_spec(
    quota_raw: Option<Seq<char>>,
    period_raw: Option<Seq<char>>,
) -> Option<int> {
    match (param_spec(quota_raw), param_spec(period_raw)) {
        (Some(q), Some(p)) => if p == 0 {
            None
        } else {
            Some(div_ceil_spec(q, p))
        },
        _ => None,
    }
}

/// The whole resolver pipeline over the two description files: find
/// the `cpu` controller's path, find its mount, translate the one
/// through the other.
pub open spec fn load_cgroups_spec(
    cgroup_lines: Seq<Seq<char>>,
    mountinfo_lines: Seq<Seq<char>>,
) -> Option<Seq<char>> {
    match subsys_first_spec(cgroup_lines) {
        Some(base) => match mountinfo_first_spec(mountinfo_lines) {
            Some(rm) => translate_spec(rm.0, rm.1, base),
            None => None,
        },
        None => None,
    }
}

/// The view of an optional file content.
pub open spec fn opt_content(raw: Option<&str>) -> Option<Seq<char>> {
    match raw {
        Some(s) => Some(s@),
        None => None,
    }
}

/// The ceiling of `q / p` stays a machine word when `q` does and the
/// division is not exact (an exact one never has 1 added).
proof fn lemma_ceil_div_fits(q: int, p: int)
    requires
        0 <= q <= usize::MAX,
        2 <= p,
    ensures
        0 <= q / p,
        q / p + 1 <= usize::MAX,
{
    vstd::arithmetic::div_mod::lemma_fundamental_div_mod(q, p);
    vstd::arithmetic::div_mod::lemma_div_pos_is_pos(q, p);
    vstd::arithmetic::div_mod::lemma_mod_bound(q, p);
    let d = q / p;
    assert(p * d >= 2 * d) by (nonlinear_arith)
        requires
            p >= 2,
            d >= 0,
    ;
    assert(2 * d <= usize::MAX);
}

impl Subsys {
    /// Reads one line of the cgroup-membership description.
    pub fn parse_line(line: &str) -> (r: Option<Subsys>)
        ensures
            match r {
                Some(s) => subsys_parse_spec(line@) == Some(s.base@),
                None => subsys_parse_spec(line@) is None,
            },
    {
        let fields = text::split_str(line, ':');
        proof {
            assert(fields.deep_view() == text::split_seq(line@, ':'));
        }
        if fields.len() < 3 {
            return None;
        }
        proof {
            assert(fields.deep_view()[1] == fields@[1]@);
            assert(fields.deep_view()[2] == fields@[2]@);
        }
        if !text::contains_token(fields[1], ',', "cpu") {
            return None;
        }
        Some(Subsys { base: String::from_str(fields[2]) })
    }

    /// The first line of the given cgroup-membership description that
    /// assigns the `cpu` controller a path.
    pub fn load_cpu(lines: &Vec<String>) -> (r: Option<Subsys>)
        ensures
            match r {
                Some(s) => subsys_first_spec(lines.deep_view()) == Some(s.base@),
                None => subsys_first_spec(lines.deep_view()) is None,
            },
    {
        let mut i: usize = 0;
        while i < lines.len()
            invariant
                i <= lines.len(),
                forall|j: int| 0 <= j < i ==> subsys_parse_spec(lines.deep_view()[j]) is None,
            decreases lines.len() - i,
        {
            proof {
                assert(lines.deep_view()[i as int] == lines@[i as int]@);
            }
            match Self::parse_line(lines[i].as_str()) {
                Some(s) => {
                    proof {
                        lemma_subsys_first_skip(lines.deep_view(), i as int);
                        assert(lines.deep_view().skip(i as int)[0] == lines.deep_view()[
                            i as int
                        ]);
                    }
                    return Some(s);
                },
                None => {
                },
            }
            i = i + 1;
        }
        proof {
            lemma_subsys_first_skip(lines.deep_view(), lines.deep_view().len() as int);
            assert(lines.deep_view().skip(lines.deep_view().len() as int) =~= Seq::<
                Seq<char>,
            >::empty());
        }
        None
    }
}

impl MountInfo {
    /// Reads one line of the mount-table description.
    pub fn parse_line(line: &str) -> (r: Option<MountInfo>)
        ensures
            match r {
                Some(m) => mountinfo_parse_spec(line@) == Some((m.root@, m.mount_point@)),
                None => mountinfo_parse_spec(line@) is None,
            },
    {
        let fields = text::split_str(line, ' ');
        proof {
            assert(fields.deep_view() == text::split_seq(line@, ' '));
        }
        if fields.len() < 11 {
            return None;
        }
        proof {
            assert(fields.deep_view()[3] == fields@[3]@);
            assert(fields.deep_view()[4] == fields@[4]@);
            assert(fields.deep_view()[8] == fields@[8]@);
            assert(fields.deep_view()[10] == fields@[10]@);
        }
        if !text::str_eq(fields[8], "cgroup") {
            return None;
        }
        if !text::contains_token(fields[10], ',', "cpu") {
            return None;
        }
        Some(
            MountInfo {
                root: String::from_str(fields[3]),
                mount_point: String::from_str(fields[4]),
            },
        )
    }

    /// The first line of the given mount-table description that mounts
    /// a cgroup hierarchy with the `cpu` controller.
    pub fn load_cpu(lines: &Vec<String>) -> (r: Option<MountInfo>)
        ensures
            match r {
                Some(m) => mountinfo_first_spec(lines.deep_view()) == Some(
                    (m.root@, m.mount_point@),
                ),
                None => mountinfo_first_spec(lines.deep_view()) is None,
            },
    {
        let mut i: usize = 0;
        while i < lines.len()
            invariant
                i <= lines.len(),
                forall|j: int| 0 <= j < i ==> mountinfo_parse_spec(lines.deep_view()[j]) is None,
            decreases lines.len() - i,
        {
            proof {
                assert(lines.deep_view()[i as int] == lines@[i as int]@);
            }
            match Self::parse_line(lines[i].as_str()) {
                Some(m) => {
                    proof {
                        lemma_mountinfo_first_skip(lines.deep_view(), i as int);
                        assert(lines.deep_view().skip(i as int)[0] == lines.deep_view()[
                            i as int
                        ]);
                    }
                    return Some(m);
                },
                None => {
                },
            }
            i = i + 1;
        }
        proof {
            lemma_mountinfo_first_skip(lines.deep_view(), lines.deep_view().len() as int);
            assert(lines.deep_view().skip(lines.deep_view().len() as int) =~= Seq::<
                Seq<char>,
            >::empty());
        }
        None
    }
}

fn is_abs(s: &str) -> (r: bool)
    ensures
        r == is_abs_path(s@),
{
    s.unicode_len() > 0 && s.get_char(0) == '/'
}

fn path_segments_vec<'a>(s: &'a str) -> (r: Vec<&'a str>)
    ensures
        r.deep_view() == path_segments(s@),
{
    let pieces = text::split_str(s, '/');
    let ghost pv = pieces.deep_view();
    let mut r: Vec<&'a str> = Vec::new();
    let mut i: usize = 0;
    proof {
        assert(pv.take(0) =~= Seq::<Seq<char>>::empty());
        assert(r.deep_view() =~= Seq::<Seq<char>>::empty());
    }
    while i < pieces.len()
        invariant
            i <= pieces.len(),
            pv == pieces.deep_view(),
            pv == text::split_seq(s@, '/'),
            pieces.len() == pv.len(),
            r.deep_view() == nonempty_pieces(pv.take(i as int)),
        decreases pieces.len() - i,
    {
        let p = pieces[i];
        proof {
            assert(pv[i as int] == pieces@[i as int]@);
            assert(pv.take(i as int + 1).drop_last() =~= pv.take(i as int));
            assert(pv.take(i as int + 1).last() == pv[i as int]);
        }
        if p.unicode_len() > 0 {
            r.push(p);
        }
        i = i + 1;
    }
    proof {
        assert(pv.take(pv.len() as int) =~= pv);
    }
    r
}

impl Cgroup {
    /// Wraps an already-resolved parameter directory.
    pub fn new(dir: String) -> (c: Cgroup)
        ensures
            c.base@ == dir@,
    {
        Cgroup { base: dir }
    }

    /// Translates the controller's namespace path through the mount:
    /// strips the mount's root from it segment by segment and re-joins
    /// the remainder under the mount point.  `None` when the root is
    /// not a path prefix of the controller's path.
    pub fn translate(mntinfo: MountInfo, subsys: Subsys) -> (r: Option<Cgroup>)
        ensures
            match r {
                Some(c) => translate_spec(mntinfo.root@, mntinfo.mount_point@, subsys.base@)
                    == Some(c.base@),
                None => translate_spec(mntinfo.root@, mntinfo.mount_point@, subsys.base@)
                    is None,
            },
    {
        let ghost rootv = mntinfo.root@;
        let ghost mpv = mntinfo.mount_point@;
        let ghost basev = subsys.base@;
        if is_abs(mntinfo.root.as_str()) != is_abs(subsys.base.as_str()) {
            return None;
        }
        let rsegs = path_segments_vec(mntinfo.root.as_str());
        let bsegs = path_segments_vec(subsys.base.as_str());
        if rsegs.len() > bsegs.len() {
            proof {
                assert(!path_segments(rootv).is_prefix_of(path_segments(basev)));
            }
            return None;
        }
        let rlen = rsegs.len();
        let mut i: usize = 0;
        while i < rlen
            invariant
                rootv == mntinfo.root@,
                basev == subsys.base@,
                rsegs.deep_view() == path_segments(rootv),
                bsegs.deep_view() == path_segments(basev),
                rlen == rsegs.len(),
                rlen <= bsegs.len(),
                i <= rlen,
                forall|j: int| 0 <= j < i ==> rsegs.deep_view()[j] == bsegs.deep_view()[j],
            decreases rlen - i,
        {
            proof {
                assert(rsegs.deep_view()[i as int] == rsegs@[i as int]@);
                assert(bsegs.deep_view()[i as int] == bsegs@[i as int]@);
            }
            if !text::str_eq(rsegs[i], bsegs[i]) {
                proof {
                    assert(rsegs.deep_view()[i as int] != bsegs.deep_view()[i as int]);
                    assert(!path_segments(rootv).is_prefix_of(path_segments(basev)));
                }
                return None;
            }
            i = i + 1;
        }
        proof {
            assert(rsegs.deep_view() =~= bsegs.deep_view().subrange(0, rlen as int));
            assert(path_segments(rootv).is_prefix_of(path_segments(basev)));
        }
        let mut path = mntinfo.mount_point;
        let mut k: usize = rlen;
        while k < bsegs.len()
            invariant
                bsegs.deep_view() == path_segments(basev),
                rlen <= k <= bsegs.len(),
                join_segments(mpv, path_segments(basev).skip(rlen as int)) == join_segments(
                    path@,
                    path_segments(basev).skip(k as int),
                ),
            decreases bsegs.len() - k,
    {
            let ghost p0 = path@;
            let ghost segsv = path_segments(basev);
            path.append("/");
            path.append(bsegs[k]);
            proof {
                reveal_strlit("/");
                assert("/"@ =~= seq!['/']);
                assert(bsegs.deep_view()[k as int] == bsegs@[k as int]@);
                assert(segsv.skip(k as int)[0] == segsv[k as int]);
                assert(segsv.skip(k as int).drop_first() =~= segsv.skip(k as int + 1));
                assert(path@ =~= p0 + seq!['/'] + segsv.skip(k as int)[0]);
            }
            k = k + 1;
        }
        proof {
            assert(path_segments(basev).skip(bsegs.deep_view().len() as int) =~= Seq::<
                Seq<char>,
            >::empty());
        }
        Some(Cgroup { base: path })
    }

    /// Reads a numeric parameter file's content: trims it and parses
    /// it as a base-ten machine word.
    pub fn param(raw: Option<&str>) -> (r: Option<usize>)
        ensures
            match param_spec(opt_content(raw)) {
                Some(n) => r matches Some(v) && v as int == n,
                None => r is None,
            },
    {
        match raw {
            Some(s) => text::parse_usize(text::trim_str(s)),
            None => None,
        }
    }

    /// The configured quota, in microseconds per period.
    pub fn quota_us(&self, raw: Option<&str>) -> (r: Option<usize>)
        ensures
            match param_spec(opt_content(raw)) {
                Some(n) => r matches Some(v) && v as int == n,
                None => r is None,
            },
    {
        Self::param(raw)
    }

    /// The configured period, in microseconds.
    pub fn period_us(&self, raw: Option<&str>) -> (r: Option<usize>)
        ensures
            match param_spec(opt_content(raw)) {
                Some(n) => r matches Some(v) && v as int == n,
                None => r is None,
            },
    {
        Self::param(raw)
    }

    /// The effective CPU budget from the two parameter files' raw
    /// contents (`None` where a file could not be read): the ceiling
    /// of quota over period, or `None` when either is missing or
    /// malformed or the period is zero.
    pub fn cpu_quota(&self, quota_raw: Option<&str>, period_raw: Option<&str>) -> (r: Option<
        usize,
    >)
        ensures
            match quota_spec(opt_content(quota_raw), opt_content(period_raw)) {
                Some(n) => r matches Some(v) && v as int == n,
                None => r is None,
            },
    {
        let q = match Self::param(quota_raw) {
            Some(v) => v,
            None => {
                return None;
            },
        };
        let p = match Self::param(period_raw) {
            Some(v) => v,
            None => {
                return None;
            },
        };
        if p == 0 {
            return None;
        }
        let d = q / p;
        let m = q % p;
        if m == 0 {
            Some(d)
        } else {
            proof {
                if p == 1 {
                    assert(q as int % 1int == 0) by (nonlinear_arith);
                }
                lemma_ceil_div_fits(q as int, p as int);
            }
            Some(d + 1)
        }
    }
}

/// Runs the resolver's locating stages over the two description
/// files' lines: the `cpu` controller's namespace path, its mount,
/// and the translation of the one through the other.
pub fn load_cgroups(cgroup_lines: &Vec<String>, mountinfo_lines: &Vec<String>) -> (r: Option<
    Cgroup,
>)
    ensures
        match r {
            Some(c) => load_cgroups_spec(cgroup_lines.deep_view(), mountinfo_lines.deep_view())
                == Some(c.base@),
            None => load_cgroups_spec(cgroup_lines.deep_view(), mountinfo_lines.deep_view())
                is None,
        },
{
    let subsys = match Subsys::load_cpu(cgroup_lines) {
        Some(s) => s,
        None => {
            return None;
        },
    };
    let mntinfo = match MountInfo::load_cpu(mountinfo_lines) {
        Some(m) => m,
        None => {
            return None;
        },
    };
    Cgroup::translate(mntinfo, subsys)
}

} // verus!
