use vstd::prelude::*;

use crate::clock::Timestamp;
use crate::names::{
    compare_names, lemma_name_lt_irreflexive, lemma_name_lt_transitive,
    name_lt,
};

verus! {

/// One entry of a directory scan: its name, whether it is a directory, its
/// size in bytes (reported for files only) and its modification time.
#[derive(Clone, Debug)]
pub struct Entry {
    pub name: String,
    pub is_dir: bool,
    pub size: u64,
    pub modified: Timestamp,
}

pub struct EntryView {
    pub name: Seq<char>,
    pub is_dir: bool,
    pub size: u64,
    pub modified: Timestamp,
}

impl View for Entry {
    type V = EntryView;

    open spec fn view(&self) -> EntryView {
        EntryView { name: self.name@, is_dir: self.is_dir, size: self.size, modified: self.modified }
    }
}

impl Entry {
    pub open spec fn wf(&self) -> bool {
        self.modified.wf()
    }

    /// A copy of this entry.
    pub fn duplicate(&self) -> (r: Entry)
        ensures
            r@ == self@,
    {
        Entry { name: self.name.clone(), is_dir: self.is_dir, size: self.size, modified: self.modified }
    }

    /// A file entry.
    pub fn file(name: String, size: u64, modified: Timestamp) -> (r: Entry)
        ensures
            r@ == (EntryView { name: name@, is_dir: false, size, modified }),
    {
        Entry { name, is_dir: false, size, modified }
    }

    /// A directory entry; its size is not reported.
    pub fn dir(name: String, modified: Timestamp) -> (r: Entry)
        ensures
            r@ == (EntryView { name: name@, is_dir: true, size: 0, modified }),
    {
        Entry { name, is_dir: true, size: 0, modified }
    }
}

pub open spec fn views(s: Seq<Entry>) -> Seq<EntryView> {
    s.map_values(|e: Entry| e@)
}

pub open spec fn all_wf(s: Seq<Entry>) -> bool {
    forall|i: int| 0 <= i < s.len() ==> (#[trigger] s[i]).wf()
}

/// Names ascend strictly: sorted, and no name twice.
pub open spec fn sorted_by_name(s: Seq<EntryView>) -> bool {
    forall|i: int, j: int| 0 <= i < j < s.len() ==> name_lt(#[trigger] s[i].name, #[trigger] s[j].name)
}

pub open spec fn has_name(s: Set<EntryView>, n: Seq<char>) -> bool {
    exists|e: EntryView| s.contains(e) && e.name == n
}

/// Adds `e` unless an entry of the same name is already there: the earlier
/// one shadows it.
pub open spec fn shadow_insert(s: Set<EntryView>, e: EntryView) -> Set<EntryView> {
    if has_name(s, e.name) {
        s
    } else {
        s.insert(e)
    }
}

/// The entries of kind `dirs` of a scan, added in scan order to `s`, each
/// one only where its name is new.
pub open spec fn absorb(s: Set<EntryView>, scan: Seq<EntryView>, dirs: bool) -> Set<EntryView>
    decreases scan.len(),
{
    if scan.len() == 0 {
        s
    } else {
        let before = absorb(s, scan.drop_last(), dirs);
        if scan.last().is_dir == dirs {
            shadow_insert(before, scan.last())
        } else {
            before
        }
    }
}

/// Inserts `e` at its place by name, unless its name is already present.
pub fn insert_if_absent(v: &mut Vec<Entry>, e: Entry)
    requires
        sorted_by_name(views(old(v)@)),
    ensures
        sorted_by_name(views(final(v)@)),
        views(final(v)@).to_set() == shadow_insert(views(old(v)@).to_set(), e@),
        forall|x: Entry| final(v)@.contains(x) ==> old(v)@.contains(x) || x == e,
{
    let ghost old_v = views(v@);
    let n = v.len();
    let mut i: usize = 0;
    let mut c: i8 = 1;
    while i < n
        invariant
            n == v.len(),
            v@ == old(v)@,
            old_v == views(v@),
            i <= n,
            forall|k: int| 0 <= k < i ==> name_lt(#[trigger] old_v[k].name, e.name@),
        ensures
            i <= n,
            forall|k: int| 0 <= k < i ==> name_lt(#[trigger] old_v[k].name, e.name@),
            i < n ==> (c == 0 <==> old_v[i as int].name == e.name@),
            i < n ==> (c > 0 <==> name_lt(e.name@, old_v[i as int].name)),
            i < n ==> c >= 0,
        decreases n - i,
    {
        c = compare_names(v[i].name.as_str(), e.name.as_str());
        if c >= 0 {
            break;
        }
        i = i + 1;
    }
    if i < n && c == 0 {
        proof {
            assert(old_v.to_set().contains(old_v[i as int]));
            assert(has_name(old_v.to_set(), e@.name));
        }
        return;
    }
    proof {
        if i < n {
            assert(name_lt(e.name@, old_v[i as int].name));
        }
        assert forall|x: EntryView| old_v.to_set().contains(x) implies x.name != e@.name by {
            let k = choose|k: int| 0 <= k < old_v.len() && old_v[k] == x;
            if k < i {
                lemma_name_lt_irreflexive(e.name@);
            } else {
                if k > i {
                    lemma_name_lt_transitive(e.name@, old_v[i as int].name, old_v[k].name);
                }
                lemma_name_lt_irreflexive(e.name@);
            }
        }
        assert(!has_name(old_v.to_set(), e@.name));
    }
    let ghost ev = e@;
    let ghost ee = e;
    v.insert(i, e);
    proof {
        let nv = views(v@);
        assert(nv =~= old_v.insert(i as int, ev));
        assert forall|a: int, b: int| 0 <= a < b < nv.len() implies name_lt(
            #[trigger] nv[a].name,
            #[trigger] nv[b].name,
        ) by {
            if b > i + 1 {
                lemma_name_lt_transitive(ev.name, old_v[i as int].name, nv[b].name);
            }
            if a < i && b > i {
                lemma_name_lt_transitive(nv[a].name, ev.name, nv[b].name);
            }
        }
        assert forall|x: EntryView| nv.to_set().contains(x) <==> old_v.to_set().insert(ev).contains(x) by {
            if nv.to_set().contains(x) {
                let k = choose|k: int| 0 <= k < nv.len() && nv[k] == x;
                if k < i {
                    assert(old_v[k] == x);
                } else if k > i {
                    assert(old_v[k - 1] == x);
                }
            }
            if old_v.to_set().contains(x) {
                let k = choose|k: int| 0 <= k < old_v.len() && old_v[k] == x;
                if k < i {
                    assert(nv[k] == x);
                } else {
                    assert(nv[k + 1] == x);
                }
            }
            if x == ev {
                assert(nv[i as int] == x);
            }
        }
        assert(nv.to_set() =~= old_v.to_set().insert(ev));
        assert forall|x: Entry| v@.contains(x) implies old(v)@.contains(x) || x == ee by {
            let k = choose|k: int| 0 <= k < v@.len() && v@[k] == x;
            if k < i {
                assert(old(v)@[k] == x);
            } else if k > i {
                assert(old(v)@[k - 1] == x);
            }
        }
    }
}

/// Adds a scan's entries to the sorted files and directories gathered so
/// far, each only where no entry of its kind and name is present yet.
pub fn absorb_scan(files: &mut Vec<Entry>, dirs: &mut Vec<Entry>, scan: Vec<Entry>)
    requires
        sorted_by_name(views(old(files)@)),
        sorted_by_name(views(old(dirs)@)),
    ensures
        sorted_by_name(views(final(files)@)),
        sorted_by_name(views(final(dirs)@)),
        views(final(files)@).to_set() == absorb(views(old(files)@).to_set(), views(scan@), false),
        views(final(dirs)@).to_set() == absorb(views(old(dirs)@).to_set(), views(scan@), true),
        all_wf(old(files)@) && all_wf(scan@) ==> all_wf(final(files)@),
        all_wf(old(dirs)@) && all_wf(scan@) ==> all_wf(final(dirs)@),
{
    let ghost f0 = views(files@).to_set();
    let ghost d0 = views(dirs@).to_set();
    let ghost sv = views(scan@);
    let n = scan.len();
    let mut i: usize = 0;
    while i < n
        invariant
            n == scan.len(),
            sv == views(scan@),
            i <= n,
            sorted_by_name(views(files@)),
            sorted_by_name(views(dirs@)),
            views(files@).to_set() == absorb(f0, sv.take(i as int), false),
            views(dirs@).to_set() == absorb(d0, sv.take(i as int), true),
            all_wf(old(files)@) && all_wf(scan@) ==> all_wf(files@),
            all_wf(old(dirs)@) && all_wf(scan@) ==> all_wf(dirs@),
        decreases n - i,
    {
        let e = scan[i].duplicate();
        proof {
            assert(sv.take(i as int + 1).drop_last() =~= sv.take(i as int));
        }
        let ghost pf = files@;
        let ghost pd = dirs@;
        if scan[i].is_dir {
            insert_if_absent(dirs, e);
        } else {
            insert_if_absent(files, e);
        }
        proof {
            if all_wf(scan@) {
                assert(scan@[i as int].wf());
                assert forall|k: int| 0 <= k < files@.len() && all_wf(pf) implies (#[trigger] files@[k]).wf() by {
                    assert(files@.contains(files@[k]));
                    if pf.contains(files@[k]) {
                        let j = choose|j: int| 0 <= j < pf.len() && pf[j] == files@[k];
                        assert(pf[j].wf());
                    }
                }
                assert forall|k: int| 0 <= k < dirs@.len() && all_wf(pd) implies (#[trigger] dirs@[k]).wf() by {
                    assert(dirs@.contains(dirs@[k]));
                    if pd.contains(dirs@[k]) {
                        let j = choose|j: int| 0 <= j < pd.len() && pd[j] == dirs@[k];
                        assert(pd[j].wf());
                    }
                }
            }
        }
        i = i + 1;
    }
    proof {
        assert(sv.take(n as int) =~= sv);
    }
}

proof fn lemma_absorb(acc: Set<EntryView>, scan: Seq<EntryView>, dirs: bool)
    ensures
        forall|x: EntryView| acc.contains(x) ==> #[trigger] absorb(acc, scan, dirs).contains(x),
        forall|k: int|
            0 <= k < scan.len() && (#[trigger] scan[k]).is_dir == dirs ==> has_name(
                absorb(acc, scan, dirs),
                scan[k].name,
            ),
        forall|x: EntryView| #[trigger]
            absorb(acc, scan, dirs).contains(x) ==> acc.contains(x) || (scan.contains(x)
                && x.is_dir == dirs && !has_name(acc, x.name)),
    decreases scan.len(),
{
    if scan.len() > 0 {
        let rest = scan.drop_last();
        lemma_absorb(acc, rest, dirs);
        let before = absorb(acc, rest, dirs);
        let after = absorb(acc, scan, dirs);
        assert forall|k: int| 0 <= k < scan.len() && (#[trigger] scan[k]).is_dir == dirs implies has_name(
            after,
            scan[k].name,
        ) by {
            if k < scan.len() - 1 {
                assert(rest[k] == scan[k]);
                let w = choose|w: EntryView| before.contains(w) && w.name == scan[k].name;
                assert(after.contains(w));
            } else if !has_name(before, scan[k].name) {
                assert(after.contains(scan[k]));
            } else {
                let w = choose|w: EntryView| before.contains(w) && w.name == scan[k].name;
                assert(after.contains(w));
            }
        }
        assert forall|x: EntryView| #[trigger] after.contains(x) implies acc.contains(x) || (
        scan.contains(x) && x.is_dir == dirs && !has_name(acc, x.name)) by {
            if before.contains(x) {
                if rest.contains(x) {
                    let j = choose|j: int| 0 <= j < rest.len() && rest[j] == x;
                    assert(scan[j] == x);
                }
            } else {
                assert(x == scan.last());
                assert(scan[scan.len() - 1] == x);
                if has_name(acc, x.name) {
                    let w = choose|w: EntryView| acc.contains(w) && w.name == x.name;
                    assert(before.contains(w));
                }
            }
        }
    }
}

/// Layered scans of one directory under two roots, the first of higher
/// precedence: every name of either scan is listed, and where both hold a
/// name the first root's entry is the one listed.
pub proof fn lemma_overlay_first_root_wins(s1: Seq<EntryView>, s2: Seq<EntryView>, dirs: bool)
    ensures
        ({
            let r = absorb(absorb(Set::empty(), s1, dirs), s2, dirs);
            &&& forall|k: int|
                0 <= k < s1.len() && (#[trigger] s1[k]).is_dir == dirs ==> has_name(r, s1[k].name)
            &&& forall|k: int|
                0 <= k < s2.len() && (#[trigger] s2[k]).is_dir == dirs ==> has_name(r, s2[k].name)
            &&& forall|x: EntryView|
                #[trigger] r.contains(x) ==> x.is_dir == dirs && (s1.contains(x) || s2.contains(x))
            &&& forall|x: EntryView, k: int|
                r.contains(x) && 0 <= k < s1.len() && (#[trigger] s1[k]).is_dir == dirs
                    && s1[k].name == x.name ==> #[trigger] s1.contains(x)
        }),
{
    let r1 = absorb(Set::empty(), s1, dirs);
    let r = absorb(r1, s2, dirs);
    lemma_absorb(Set::empty(), s1, dirs);
    lemma_absorb(r1, s2, dirs);
    assert forall|k: int| 0 <= k < s1.len() && (#[trigger] s1[k]).is_dir == dirs implies has_name(
        r,
        s1[k].name,
    ) by {
        let w = choose|w: EntryView| r1.contains(w) && w.name == s1[k].name;
        assert(r.contains(w));
    }
    assert forall|x: EntryView, k: int|
        r.contains(x) && 0 <= k < s1.len() && (#[trigger] s1[k]).is_dir == dirs && s1[k].name
            == x.name implies #[trigger] s1.contains(x) by {
        assert(has_name(r1, s1[k].name));
        if !r1.contains(x) {
            assert(!has_name(r1, x.name));
        }
    }
}

/// One directory's listing: the request path, and the files and
/// directories found, each sorted by name with no name twice.
pub struct BaseInfo {
    pub path: String,
    pub files: Vec<Entry>,
    pub dirs: Vec<Entry>,
}

impl BaseInfo {
    pub open spec fn wf(&self) -> bool {
        &&& sorted_by_name(views(self.files@))
        &&& sorted_by_name(views(self.dirs@))
        &&& all_wf(self.files@)
        &&& all_wf(self.dirs@)
    }

    pub fn new(path: String, files: Vec<Entry>, dirs: Vec<Entry>) -> (r: BaseInfo)
        ensures
            r.path@ == path@,
            r.files@ == files@,
            r.dirs@ == dirs@,
    {
        BaseInfo { path, files, dirs }
    }

    pub fn is_empty(&self) -> (r: bool)
        ensures
            r == (self.files@.len() == 0 && self.dirs@.len() == 0),
    {
        self.files.len() == 0 && self.dirs.len() == 0
    }
}

} // verus!
