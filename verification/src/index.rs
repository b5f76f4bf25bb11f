//! The application index: the `name -> Entry` snapshot that searches read.
//! A rebuild produces a whole replacement index from the resolved entries
//! and the heatmap; between rebuilds only `record_launch` touches it, and
//! only one entry's launch count.

use crate::entry::{AppEntry, EntryType};
use crate::heatmap::{heat_count, Heatmap};
use crate::text::str_eq;
use vstd::prelude::*;

verus! {

/// Some entry in `s` bears `name`.
pub open spec fn has_name(s: Seq<AppEntry>, name: Seq<char>) -> bool {
    exists|i: int| 0 <= i < s.len() && (#[trigger] s[i]).name@ == name
}

/// An entry as a rebuild seeds it: its launch count replaced by the
/// heatmap's where the heatmap knows its name.
pub open spec fn seeded(e: AppEntry, heat: Seq<(String, u32)>) -> AppEntry {
    match heat_count(heat, e.name@) {
        Some(c) => AppEntry { launch_count: c, ..e },
        None => e,
    }
}

/// An entry after one recorded launch: the count one higher, saturating at
/// the type's ceiling so that a launch can never panic.
pub open spec fn bumped(e: AppEntry) -> AppEntry {
    AppEntry {
        launch_count: if e.launch_count < u32::MAX {
            (e.launch_count + 1) as u32
        } else {
            e.launch_count
        },
        ..e
    }
}

/// The `name -> Entry` mapping, held as entries with unique names.
#[derive(Debug)]
pub struct AppIndex {
    pub entries: Vec<AppEntry>,
}

impl AppIndex {
    pub open spec fn view_seq(&self) -> Seq<AppEntry> {
        self.entries@
    }

    /// Names are unique within one snapshot.
    pub open spec fn wf(&self) -> bool {
        forall|i: int, j: int|
            0 <= i < j < self.entries@.len() ==> (#[trigger] self.entries@[i]).name@ != (
            #[trigger] self.entries@[j]).name@
    }

    pub fn new() -> (r: AppIndex)
        ensures
            r.wf(),
            r.view_seq().len() == 0,
    {
        AppIndex { entries: Vec::new() }
    }

    pub fn len(&self) -> (r: usize)
        ensures
            r == self.view_seq().len(),
    {
        self.entries.len()
    }

    /// The entry bearing `name`, if any.
    pub fn get(&self, name: &str) -> (r: Option<&AppEntry>)
        ensures
            r is Some <==> has_name(self.view_seq(), name@),
            r matches Some(e) ==> e.name@ == name@ && exists|i: int|
                0 <= i < self.view_seq().len() && #[trigger] self.view_seq()[i] == *e,
    {
        let n = self.entries.len();
        let mut i: usize = 0;
        while i < n
            invariant
                n == self.entries@.len(),
                i <= n,
                forall|k: int| 0 <= k < i ==> (#[trigger] self.entries@[k]).name@ != name@,
            decreases n - i,
        {
            if str_eq(self.entries[i].name.as_str(), name) {
                proof {
                    assert(self.view_seq()[i as int] == self.entries@[i as int]);
                }
                return Some(&self.entries[i]);
            }
            i = i + 1;
        }
        None
    }

    /// Puts `e` in the mapping under its name, replacing any entry that
    /// already bears it (the last entry inserted for a name wins).
    pub fn insert(&mut self, e: AppEntry)
        requires
            old(self).wf(),
        ensures
            final(self).wf(),
            has_name(old(self).view_seq(), e.name@) ==> exists|i: int|
                0 <= i < old(self).view_seq().len() && (#[trigger] old(self).view_seq()[i]).name@
                    == e.name@ && final(self).view_seq() == old(self).view_seq().update(i, e),
            !has_name(old(self).view_seq(), e.name@) ==> final(self).view_seq() == old(
                self,
            ).view_seq().push(e),
    {
        let n = self.entries.len();
        let mut i: usize = 0;
        while i < n
            invariant
                old(self).wf(),
                n == self.entries@.len(),
                i <= n,
                self.entries@ == old(self).entries@,
                forall|k: int| 0 <= k < i ==> (#[trigger] self.entries@[k]).name@ != e.name@,
            decreases n - i,
        {
            if str_eq(self.entries[i].name.as_str(), e.name.as_str()) {
                let _ = self.entries.remove(i);
                self.entries.insert(i, e);
                proof {
                    assert(self.entries@ =~= old(self).entries@.update(i as int, e));
                    assert forall|a: int, b: int|
                        0 <= a < b < self.entries@.len() implies (
                    #[trigger] self.entries@[a]).name@ != (#[trigger] self.entries@[b]).name@ by {
                        if a != i && b != i {
                            assert(self.entries@[a] == old(self).entries@[a]);
                            assert(self.entries@[b] == old(self).entries@[b]);
                        } else if a == i {
                            assert(self.entries@[b] == old(self).entries@[b]);
                            assert(old(self).entries@[i as int].name@ != old(
                                self,
                            ).entries@[b].name@);
                        } else {
                            assert(self.entries@[a] == old(self).entries@[a]);
                        }
                    }
                }
                return ;
            }
            i = i + 1;
        }
        self.entries.push(e);
        proof {
            assert(!has_name(old(self).view_seq(), e.name@));
            assert forall|a: int, b: int| 0 <= a < b < self.entries@.len() implies (
            #[trigger] self.entries@[a]).name@ != (#[trigger] self.entries@[b]).name@ by {
                if b < self.entries@.len() - 1 {
                    assert(self.entries@[a] == old(self).entries@[a]);
                    assert(self.entries@[b] == old(self).entries@[b]);
                } else {
                    assert(self.entries@[a] == old(self).entries@[a]);
                }
            }
        }
    }

    /// One successful launch of `name`: its entry's count rises by one (in
    /// place, saturating), and the new count is returned for the caller to
    /// persist. A name the index does not hold is a silent no-op.
    pub fn record_launch(&mut self, name: &str) -> (r: Option<u32>)
        requires
            old(self).wf(),
        ensures
            final(self).wf(),
            !has_name(old(self).view_seq(), name@) ==> final(self).view_seq() == old(
                self,
            ).view_seq() && r is None,
            has_name(old(self).view_seq(), name@) ==> exists|i: int|
                0 <= i < old(self).view_seq().len() && (#[trigger] old(self).view_seq()[i]).name@
                    == name@ && final(self).view_seq() == old(self).view_seq().update(
                    i,
                    bumped(old(self).view_seq()[i]),
                ) && r == Some(bumped(old(self).view_seq()[i]).launch_count),
    {
        let n = self.entries.len();
        let mut i: usize = 0;
        while i < n
            invariant
                old(self).wf(),
                n == self.entries@.len(),
                i <= n,
                self.entries@ == old(self).entries@,
                forall|k: int| 0 <= k < i ==> (#[trigger] self.entries@[k]).name@ != name@,
            decreases n - i,
        {
            if str_eq(self.entries[i].name.as_str(), name) {
                let mut e = self.entries.remove(i);
                let new_count = if e.launch_count < u32::MAX {
                    e.launch_count + 1
                } else {
                    e.launch_count
                };
                e.launch_count = new_count;
                self.entries.insert(i, e);
                proof {
                    assert(self.entries@ =~= old(self).entries@.update(
                        i as int,
                        bumped(old(self).entries@[i as int]),
                    ));
                    assert forall|a: int, b: int|
                        0 <= a < b < self.entries@.len() implies (
                    #[trigger] self.entries@[a]).name@ != (#[trigger] self.entries@[b]).name@ by {
                        assert(self.entries@[a].name@ == old(self).entries@[a].name@);
                        assert(self.entries@[b].name@ == old(self).entries@[b].name@);
                    }
                }
                return Some(new_count);
            }
            i = i + 1;
        }
        None
    }
}

/// The position of the entry bearing `name` (any one of them; unique in a
/// well-formed index).
pub open spec fn index_of_name(s: Seq<AppEntry>, name: Seq<char>) -> int {
    choose|i: int| 0 <= i < s.len() && (#[trigger] s[i]).name@ == name
}

/// What one rebuild computes: each resolved entry, seeded from the
/// heatmap, inserted in scan order under its name — so the last entry
/// scanned for a name wins.
pub open spec fn build_spec(resolved: Seq<AppEntry>, heat: Seq<(String, u32)>) -> Seq<AppEntry>
    decreases resolved.len(),
{
    if resolved.len() == 0 {
        Seq::empty()
    } else {
        let prev = build_spec(resolved.drop_last(), heat);
        let e = seeded(resolved.last(), heat);
        if has_name(prev, e.name@) {
            prev.update(index_of_name(prev, e.name@), e)
        } else {
            prev.push(e)
        }
    }
}

/// Builds the replacement index of one rebuild: every resolved entry goes
/// in under its name with its launch count seeded from the heatmap, and
/// where several resolved entries share a name the last one scanned wins.
pub fn build_index(resolved: &Vec<AppEntry>, heat: &Heatmap) -> (r: AppIndex)
    requires
        heat.wf(),
    ensures
        r.wf(),
        r.view_seq() == build_spec(resolved@, heat.view_seq()),
{
    let n = resolved.len();
    let mut idx = AppIndex::new();
    proof {
        assert(resolved@.take(0) =~= Seq::<AppEntry>::empty());
        assert(idx.view_seq() =~= build_spec(resolved@.take(0), heat.view_seq()));
    }
    let mut c: usize = 0;
    while c < n
        invariant
            heat.wf(),
            n == resolved@.len(),
            c <= n,
            idx.wf(),
            idx.view_seq() == build_spec(resolved@.take(c as int), heat.view_seq()),
        decreases n - c,
    {
        let ghost prev = idx.view_seq();
        let mut e = resolved[c].duplicate();
        match heat.get(e.name.as_str()) {
            Some(count) => {
                e.launch_count = count;
            },
            None => {},
        }
        proof {
            assert(e == seeded(resolved@[c as int], heat.view_seq()));
        }
        let ghost ev = e;
        idx.insert(e);
        proof {
            assert(resolved@.take(c + 1).drop_last() =~= resolved@.take(c as int));
            assert(resolved@.take(c + 1).last() == resolved@[c as int]);
            if has_name(prev, ev.name@) {
                let iw = choose|i: int|
                    0 <= i < prev.len() && (#[trigger] prev[i]).name@ == ev.name@ && idx.view_seq()
                        == prev.update(i, ev);
                let ic = index_of_name(prev, ev.name@);
                assert(0 <= ic < prev.len() && prev[ic].name@ == ev.name@);
                if iw != ic {
                    // two positions bearing one name would break uniqueness
                    if iw < ic {
                        assert(prev[iw].name@ != prev[ic].name@);
                    } else {
                        assert(prev[ic].name@ != prev[iw].name@);
                    }
                }
                assert(idx.view_seq() == build_spec(resolved@.take(c + 1), heat.view_seq()));
            } else {
                assert(idx.view_seq() == build_spec(resolved@.take(c + 1), heat.view_seq()));
            }
        }
        c = c + 1;
    }
    proof {
        assert(resolved@.take(n as int) =~= resolved@);
    }
    idx
}

/// A rebuild over resolved entries of Application kind alone yields an
/// index of Application entries alone: seeding a count changes no entry's
/// kind, and insertion adds no entry of its own.
pub proof fn lemma_rebuild_all_applications(resolved: Seq<AppEntry>, heat: Seq<(String, u32)>)
    requires
        forall|i: int|
            0 <= i < resolved.len() ==> (#[trigger] resolved[i]).entry_type
                == EntryType::Application,
    ensures
        forall|j: int|
            0 <= j < build_spec(resolved, heat).len() ==> (#[trigger] build_spec(resolved, heat)[j]).entry_type
                == EntryType::Application,
    decreases resolved.len(),
{
    if resolved.len() > 0 {
        assert forall|i: int| 0 <= i < resolved.drop_last().len() implies (
        #[trigger] resolved.drop_last()[i]).entry_type == EntryType::Application by {
            assert(resolved.drop_last()[i] == resolved[i]);
        }
        lemma_rebuild_all_applications(resolved.drop_last(), heat);
        let prev = build_spec(resolved.drop_last(), heat);
        let e = seeded(resolved.last(), heat);
        assert(e.entry_type == resolved.last().entry_type);
        assert(resolved.last() == resolved[resolved.len() - 1]);
        assert forall|j: int| 0 <= j < build_spec(resolved, heat).len() implies (
        #[trigger] build_spec(resolved, heat)[j]).entry_type == EntryType::Application by {
            if has_name(prev, e.name@) {
                let ic = index_of_name(prev, e.name@);
                assert(build_spec(resolved, heat) == prev.update(ic, e));
                if j != ic {
                    assert(build_spec(resolved, heat)[j] == prev[j]);
                }
            } else {
                assert(build_spec(resolved, heat) == prev.push(e));
                if j < prev.len() {
                    assert(build_spec(resolved, heat)[j] == prev[j]);
                }
            }
        }
    }
}

/// Every resolved entry's name is in the rebuilt index.
pub proof fn lemma_rebuild_keeps_names(resolved: Seq<AppEntry>, heat: Seq<(String, u32)>)
    ensures
        forall|i: int|
            0 <= i < resolved.len() ==> has_name(
                build_spec(resolved, heat),
                (#[trigger] resolved[i]).name@,
            ),
    decreases resolved.len(),
{
    if resolved.len() > 0 {
        lemma_rebuild_keeps_names(resolved.drop_last(), heat);
        let prev = build_spec(resolved.drop_last(), heat);
        let e = seeded(resolved.last(), heat);
        let cur = build_spec(resolved, heat);
        assert(resolved.last() == resolved[resolved.len() - 1]);
        assert(e.name@ == resolved.last().name@);
        assert forall|i: int| 0 <= i < resolved.len() implies has_name(
            cur,
            (#[trigger] resolved[i]).name@,
        ) by {
            if has_name(prev, e.name@) {
                let ic = index_of_name(prev, e.name@);
                assert(cur == prev.update(ic, e));
                if i == resolved.len() - 1 {
                    assert(cur[ic].name@ == resolved[i].name@);
                } else {
                    assert(resolved.drop_last()[i] == resolved[i]);
                    let w = choose|j: int|
                        0 <= j < prev.len() && (#[trigger] prev[j]).name@ == resolved[i].name@;
                    if w == ic {
                        assert(cur[ic].name@ == e.name@ && e.name@ == prev[w].name@);
                    } else {
                        assert(cur[w] == prev[w]);
                    }
                }
            } else {
                assert(cur == prev.push(e));
                if i == resolved.len() - 1 {
                    assert(cur[cur.len() - 1].name@ == resolved[i].name@);
                } else {
                    assert(resolved.drop_last()[i] == resolved[i]);
                    let w = choose|j: int|
                        0 <= j < prev.len() && (#[trigger] prev[j]).name@ == resolved[i].name@;
                    assert(cur[w] == prev[w]);
                }
            }
        }
    }
}


/// The directories scanned for desktop-entry files: every segment of the
/// data-directory search path (as the caller read it from the
/// environment), each with `/applications` appended, then the fixed
/// fallback roots, the per-user ones tilde-expanded.
pub fn get_desktop_paths(xdg_data_dirs: Option<&str>) -> (r: Vec<String>)
    ensures
        ({
            let segs = match xdg_data_dirs {
                Some(x) => crate::text::split_char(x@, ':'),
                None => Seq::<Seq<char>>::empty(),
            };
            &&& r@.len() == segs.len() + 5
            &&& (forall|i: int|
                0 <= i < segs.len() ==> (#[trigger] r@[i])@ == segs[i] + "/applications"@)
            &&& r@[segs.len() as int]@ == "/usr/share/applications"@
            &&& r@[segs.len() as int + 1]@ == "/usr/local/share/applications"@
            &&& r@[segs.len() as int + 2]@ == "/var/lib/flatpak/exports/share/applications"@
            // the per-user roots: the tilde resolved to some home
            // directory, or left in place — the path after it kept
            &&& (r@[segs.len() as int + 3]@ == "~/.local/share/applications"@ || (exists|
                home: Seq<char>,
            |
                r@[segs.len() as int + 3]@ == home + "/.local/share/applications"@))
            &&& (r@[segs.len() as int + 4]@
                == "~/.local/share/flatpak/exports/share/applications"@ || (exists|
                home: Seq<char>,
            |
                r@[segs.len() as int + 4]@ == home
                    + "/.local/share/flatpak/exports/share/applications"@))
        }),
{
    let mut out: Vec<String> = Vec::new();
    match xdg_data_dirs {
        Some(x) => {
            let segs = crate::text::split_on(x, 0, ':');
            let m = segs.len();
            let mut i: usize = 0;
            while i < m
                invariant
                    m == segs@.len(),
                    segs.deep_view() == crate::text::split_char(x@, ':'),
                    i <= m,
                    out@.len() == i,
                    forall|k: int|
                        0 <= k < i ==> (#[trigger] out@[k])@ == segs.deep_view()[k]
                            + "/applications"@,
                decreases m - i,
            {
                let p = segs[i].clone().concat("/applications");
                out.push(p);
                i = i + 1;
            }
        },
        None => {},
    }
    proof {
        reveal_strlit("/usr/share/applications");
        reveal_strlit("/usr/local/share/applications");
        reveal_strlit("/var/lib/flatpak/exports/share/applications");
        reveal_strlit("~/.local/share/applications");
        reveal_strlit("/.local/share/applications");
        reveal_strlit("~/.local/share/flatpak/exports/share/applications");
        reveal_strlit("/.local/share/flatpak/exports/share/applications");
        assert("~/.local/share/applications"@.skip(1) =~= "/.local/share/applications"@);
        assert("~/.local/share/flatpak/exports/share/applications"@.skip(1)
            =~= "/.local/share/flatpak/exports/share/applications"@);
    }
    out.push(crate::bindings::expand_tilde_str("/usr/share/applications"));
    out.push(crate::bindings::expand_tilde_str("/usr/local/share/applications"));
    out.push(crate::bindings::expand_tilde_str("/var/lib/flatpak/exports/share/applications"));
    out.push(crate::bindings::expand_tilde_str("~/.local/share/applications"));
    out.push(
        crate::bindings::expand_tilde_str("~/.local/share/flatpak/exports/share/applications"),
    );
    out
}

} // verus!
