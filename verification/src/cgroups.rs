//! Control-group attribution: maps the contents of a per-process cgroup
//! file (the single v2 line `0::<path>`) to a slice class and a unit name.

use vstd::prelude::*;
use crate::text::{
    contains_seq, ends_with, split_char, starts_with, str_contains, str_ends_with, str_eq,
    str_split, str_starts_with, views_of,
};

verus! {

/// The top-level control-group partition a process lives in.
#[derive(Debug, Clone, Copy, PartialEq, Eq, Hash, Structural)]
pub enum CgroupSlice {
    System,
    User,
    Machine,
    Init,
    Unknown,
}

impl CgroupSlice {
    /// Fixed kill-priority of a slice class: the higher, the more likely a
    /// member is selected as a victim.
    pub open spec fn spec_priority(self) -> int {
        match self {
            CgroupSlice::User => 100,
            CgroupSlice::Machine => 50,
            CgroupSlice::Unknown => 25,
            CgroupSlice::System => 10,
            CgroupSlice::Init => 0,
        }
    }

    /// Priority for victim selection: user sessions first, then virtual
    /// machines and containers, then unattributed processes, then system
    /// services; init is last.
    pub fn priority_score(&self) -> (r: i32)
        ensures
            r as int == self.spec_priority(),
    {
        match self {
            CgroupSlice::User => 100,
            CgroupSlice::Machine => 50,
            CgroupSlice::Unknown => 25,
            CgroupSlice::System => 10,
            CgroupSlice::Init => 0,
        }
    }
}

/// Whether a path segment names a systemd unit: it ends in `.service`,
/// `.scope`, or `.slice`.
pub open spec fn is_unit_segment(seg: Seq<char>) -> bool {
    ends_with(seg, ".service"@) || ends_with(seg, ".scope"@) || ends_with(seg, ".slice"@)
}

/// The last unit-like segment of a sequence of path segments, if any.
pub open spec fn last_unit_segment(segs: Seq<Seq<char>>) -> Option<Seq<char>>
    decreases segs.len(),
{
    if segs.len() == 0 {
        None
    } else if is_unit_segment(segs.last()) {
        Some(segs.last())
    } else {
        last_unit_segment(segs.drop_last())
    }
}

/// The slice class of a cgroup path, decided in a fixed order: by
/// substring for the user, system and machine slices, then by the exact
/// path `/init.scope` for init; anything else is unattributed.
pub open spec fn slice_of_path(path: Seq<char>) -> CgroupSlice {
    if contains_seq(path, "/user.slice/"@) {
        CgroupSlice::User
    } else if contains_seq(path, "/system.slice/"@) {
        CgroupSlice::System
    } else if contains_seq(path, "/machine.slice/"@) {
        CgroupSlice::Machine
    } else if path == "/init.scope"@ {
        CgroupSlice::Init
    } else {
        CgroupSlice::Unknown
    }
}

/// The unit name a cgroup path carries: for the three slice classes the
/// last `.service`/`.scope`/`.slice` segment, for init the fixed
/// `init.scope`, and nothing for unattributed paths.
pub open spec fn unit_of_path(path: Seq<char>) -> Option<Seq<char>> {
    match slice_of_path(path) {
        CgroupSlice::User => last_unit_segment(split_char(path, '/')),
        CgroupSlice::System => last_unit_segment(split_char(path, '/')),
        CgroupSlice::Machine => last_unit_segment(split_char(path, '/')),
        CgroupSlice::Init => Some("init.scope"@),
        CgroupSlice::Unknown => None,
    }
}

/// The view of an optional owned string.
pub open spec fn opt_view(o: Option<String>) -> Option<Seq<char>> {
    match o {
        Some(s) => Some(s@),
        None => None,
    }
}

/// The first line that carries the cgroup v2 marker `0::`, if any.
pub open spec fn find_v2_line(lines: Seq<Seq<char>>) -> Option<Seq<char>>
    decreases lines.len(),
{
    if lines.len() == 0 {
        None
    } else if contains_seq(lines[0], "0::"@) {
        Some(lines[0])
    } else {
        find_v2_line(lines.skip(1))
    }
}

/// The raw cgroup path of a v2 line: the line with a leading `0::`
/// stripped, or the whole line when the marker is not a prefix.
pub open spec fn raw_path_of_line(line: Seq<char>) -> Seq<char> {
    if starts_with(line, "0::"@) {
        line.skip(3)
    } else {
        line
    }
}

/// A process's control-group attribution.
#[derive(Debug, Clone)]
pub struct CgroupInfo {
    pub slice: CgroupSlice,
    pub unit_name: Option<String>,
    pub raw_path: String,
}

impl CgroupInfo {
    /// Whether this record is consistent with the cgroup path `path`.
    pub open spec fn matches_path(self, path: Seq<char>) -> bool {
        &&& self.raw_path@ == path
        &&& self.slice == slice_of_path(path)
        &&& opt_view(self.unit_name) == unit_of_path(path)
    }

    /// Parse the contents of a per-process cgroup file: scan the
    /// newline-separated lines for the single v2 line `0::<path>` and
    /// classify its path. Without such a line the process is unattributed.
    pub fn parse(content: &str) -> (r: CgroupInfo)
        ensures
            match find_v2_line(split_char(content@, '\n')) {
                Some(line) => r.matches_path(raw_path_of_line(line)),
                None => {
                    &&& r.slice == CgroupSlice::Unknown
                    &&& r.unit_name is None
                    &&& r.raw_path@ == Seq::<char>::empty()
                },
            },
    {
        let lines = str_split(content, '\n');
        let ghost lviews = views_of(lines@);
        let mut i: usize = 0;
        proof {
            assert(lviews.skip(0) =~= lviews);
        }
        while i < lines.len()
            invariant
                0 <= i <= lines@.len(),
                lviews == views_of(lines@),
                lviews.len() == lines@.len(),
                find_v2_line(split_char(content@, '\n')) == find_v2_line(lviews.skip(i as int)),
            decreases lines@.len() - i,
        {
            proof {
                assert(lviews[i as int] == lines@[i as int]@);
            }
            if str_contains(&lines[i], "0::") {
                let line: &String = &lines[i];
                let n = line.as_str().unicode_len();
                let raw_path: String = if str_starts_with(line.as_str(), "0::") {
                    proof {
                        reveal_strlit("0::");
                        assert(line@.len() >= 3);
                        assert(line@.skip(3) =~= line@.subrange(3, n as int));
                    }
                    line.as_str().substring_char(3, n).to_owned()
                } else {
                    line.clone()
                };
                proof {
                    assert(lviews.skip(i as int)[0] == lviews[i as int]);
                    assert(find_v2_line(lviews.skip(i as int)) == Some(line@));
                    assert(raw_path@ == raw_path_of_line(line@));
                }
                let (slice, unit_name) = Self::classify_path(raw_path.as_str());
                return CgroupInfo { slice, unit_name, raw_path };
            }
            proof {
                assert(lviews.skip(i as int)[0] == lviews[i as int]);
                assert(lviews.skip(i as int).skip(1) =~= lviews.skip(i + 1));
            }
            i += 1;
        }
        proof {
            assert(lviews.skip(i as int).len() == 0);
        }
        CgroupInfo { slice: CgroupSlice::Unknown, unit_name: None, raw_path: String::new() }
    }

    /// Classify a raw cgroup path into its slice class and unit name.
    pub fn classify_path(path: &str) -> (r: (CgroupSlice, Option<String>))
        ensures
            r.0 == slice_of_path(path@),
            opt_view(r.1) == unit_of_path(path@),
    {
        if str_contains(path, "/user.slice/") {
            let unit = Self::extract_unit_name(path);
            (CgroupSlice::User, unit)
        } else if str_contains(path, "/system.slice/") {
            let unit = Self::extract_unit_name(path);
            (CgroupSlice::System, unit)
        } else if str_contains(path, "/machine.slice/") {
            let unit = Self::extract_unit_name(path);
            (CgroupSlice::Machine, unit)
        } else if str_eq(path, "/init.scope") {
            (CgroupSlice::Init, Some("init.scope".to_owned()))
        } else {
            (CgroupSlice::Unknown, None)
        }
    }

    /// The last `.service`/`.scope`/`.slice` segment of a path, if any.
    pub fn extract_unit_name(path: &str) -> (r: Option<String>)
        ensures
            opt_view(r) == last_unit_segment(split_char(path@, '/')),
    {
        let segs = str_split(path, '/');
        let ghost sviews = views_of(segs@);
        let mut i: usize = segs.len();
        proof {
            assert(sviews.take(sviews.len() as int) =~= sviews);
        }
        while i > 0
            invariant
                0 <= i <= segs@.len(),
                sviews == views_of(segs@),
                sviews == split_char(path@, '/'),
                sviews.len() == segs@.len(),
                last_unit_segment(sviews) == last_unit_segment(sviews.take(i as int)),
            decreases i,
        {
            i -= 1;
            let seg: &String = &segs[i];
            proof {
                assert(sviews[i as int] == segs@[i as int]@);
                assert(sviews.take(i + 1).last() == sviews[i as int]);
                assert(sviews.take(i + 1).drop_last() =~= sviews.take(i as int));
            }
            if str_ends_with(seg.as_str(), ".service") || str_ends_with(seg.as_str(), ".scope")
                || str_ends_with(seg.as_str(), ".slice") {
                proof {
                    assert(is_unit_segment(sviews[i as int]));
                    assert(last_unit_segment(sviews.take(i + 1)) == Some(sviews[i as int]));
                }
                return Some(seg.clone());
            }
        }
        proof {
            assert(sviews.take(0) =~= Seq::<Seq<char>>::empty());
        }
        None
    }

    /// Whether this process's unit is on the protected list: an exact match
    /// of the unit name against any entry. A process without a unit name is
    /// never protected.
    pub fn is_protected(&self, protected_units: &Vec<String>) -> (r: bool)
        ensures
            r == spec_is_protected(opt_view(self.unit_name), views_of(protected_units@)),
    {
        match &self.unit_name {
            Some(unit) => {
                let mut j: usize = 0;
                while j < protected_units.len()
                    invariant
                        0 <= j <= protected_units@.len(),
                        opt_view(self.unit_name) == Some(unit@),
                        forall|k: int|
                            0 <= k < j ==> views_of(protected_units@)[k] != unit@,
                    decreases protected_units@.len() - j,
                {
                    proof {
                        assert(views_of(protected_units@)[j as int] == protected_units@[j as int]@);
                    }
                    if str_eq(unit.as_str(), protected_units[j].as_str()) {
                        proof {
                            assert(views_of(protected_units@)[j as int] == unit@);
                            assert(spec_is_protected(Some(unit@), views_of(protected_units@)));
                            assert(opt_view(self.unit_name) == Some(unit@));
                        }
                        return true;
                    }
                    j += 1;
                }
                false
            },
            None => false,
        }
    }
}

/// How many members of a slice class a sequence of attributions holds.
pub open spec fn count_of(s: Seq<CgroupSlice>, which: CgroupSlice) -> int
    decreases s.len(),
{
    if s.len() == 0 {
        0
    } else {
        count_of(s.drop_last(), which) + if s.last() == which {
            1int
        } else {
            0int
        }
    }
}

proof fn lemma_count_of_bound(s: Seq<CgroupSlice>, which: CgroupSlice)
    ensures
        0 <= count_of(s, which) <= s.len(),
    decreases s.len(),
{
    if s.len() > 0 {
        lemma_count_of_bound(s.drop_last(), which);
    }
}

/// How many processes each slice class holds.
#[derive(Debug, Clone, Copy, PartialEq, Eq, Structural)]
pub struct SliceStats {
    pub user: usize,
    pub machine: usize,
    pub system: usize,
    pub init: usize,
    pub unknown: usize,
}

/// Tally a walk of the process table by slice class.
pub fn count_slices(slices: &Vec<CgroupSlice>) -> (r: SliceStats)
    ensures
        r.user as int == count_of(slices@, CgroupSlice::User),
        r.machine as int == count_of(slices@, CgroupSlice::Machine),
        r.system as int == count_of(slices@, CgroupSlice::System),
        r.init as int == count_of(slices@, CgroupSlice::Init),
        r.unknown as int == count_of(slices@, CgroupSlice::Unknown),
{
    let mut r = SliceStats { user: 0, machine: 0, system: 0, init: 0, unknown: 0 };
    let mut i: usize = 0;
    proof {
        assert(slices@.take(0) =~= Seq::<CgroupSlice>::empty());
    }
    while i < slices.len()
        invariant
            0 <= i <= slices@.len(),
            r.user as int == count_of(slices@.take(i as int), CgroupSlice::User),
            r.machine as int == count_of(slices@.take(i as int), CgroupSlice::Machine),
            r.system as int == count_of(slices@.take(i as int), CgroupSlice::System),
            r.init as int == count_of(slices@.take(i as int), CgroupSlice::Init),
            r.unknown as int == count_of(slices@.take(i as int), CgroupSlice::Unknown),
        decreases slices@.len() - i,
    {
        proof {
            assert(slices@.take(i + 1).drop_last() =~= slices@.take(i as int));
            assert(slices@.take(i + 1).last() == slices@[i as int]);
            lemma_count_of_bound(slices@.take(i as int), CgroupSlice::User);
            lemma_count_of_bound(slices@.take(i as int), CgroupSlice::Machine);
            lemma_count_of_bound(slices@.take(i as int), CgroupSlice::System);
            lemma_count_of_bound(slices@.take(i as int), CgroupSlice::Init);
            lemma_count_of_bound(slices@.take(i as int), CgroupSlice::Unknown);
        }
        match slices[i] {
            CgroupSlice::User => {
                r.user += 1;
            },
            CgroupSlice::Machine => {
                r.machine += 1;
            },
            CgroupSlice::System => {
                r.system += 1;
            },
            CgroupSlice::Init => {
                r.init += 1;
            },
            CgroupSlice::Unknown => {
                r.unknown += 1;
            },
        }
        i += 1;
    }
    proof {
        assert(slices@.take(slices@.len() as int) =~= slices@);
    }
    r
}

/// Whether a unit name appears on the protected list.
pub open spec fn spec_is_protected(unit: Option<Seq<char>>, protected: Seq<Seq<char>>) -> bool {
    match unit {
        Some(u) => exists|j: int| 0 <= j < protected.len() && protected[j] == u,
        None => false,
    }
}

} // verus!
