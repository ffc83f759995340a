use vstd::prelude::*;

use crate::config::Static;
use crate::listing::{absorb, absorb_scan, all_wf, sorted_by_name, views, BaseInfo, Entry};

verus! {

/// What the filesystem holds at a root's candidate path.
#[derive(Clone, Copy, Debug, PartialEq, Eq, Structural)]
pub enum PathKind {
    Missing,
    File,
    Dir,
}

/// The next thing the caller does for a request. Roots and default index
/// names are given by their positions in the handler's configuration.
#[derive(Clone, Debug)]
pub enum Step {
    /// Look at the candidate under this root and report its kind.
    Probe(usize),
    /// Report whether this default index name exists as a file inside the
    /// candidate directory under this root.
    ProbeIndex(usize, usize),
    /// Scan the candidate directory under this root and report its entries.
    Scan(usize),
    /// Serve the candidate file under this root; the request is done.
    ServeFile(usize),
    /// Serve this default index file under this root; the request is done.
    ServeIndex(usize, usize),
    /// Redirect to this location; the request is done.
    Redirect(String),
    /// Answer not-found; the request is done.
    NotFound,
    /// Render the gathered listing; the request is done.
    Listing,
}

pub enum StepView {
    Probe(nat),
    ProbeIndex(nat, nat),
    Scan(nat),
    ServeFile(nat),
    ServeIndex(nat, nat),
    Redirect(Seq<char>),
    NotFound,
    Listing,
}

impl View for Step {
    type V = StepView;

    open spec fn view(&self) -> StepView {
        match self {
            Step::Probe(r) => StepView::Probe(*r as nat),
            Step::ProbeIndex(r, i) => StepView::ProbeIndex(*r as nat, *i as nat),
            Step::Scan(r) => StepView::Scan(*r as nat),
            Step::ServeFile(r) => StepView::ServeFile(*r as nat),
            Step::ServeIndex(r, i) => StepView::ServeIndex(*r as nat, *i as nat),
            Step::Redirect(s) => StepView::Redirect(s@),
            Step::NotFound => StepView::NotFound,
            Step::Listing => StepView::Listing,
        }
    }
}

/// The progress of one request through the roots: the root being looked
/// at, the default index name being tried, whether a listable directory was
/// found, and the files and directories gathered so far.
pub struct Resolver {
    pub request_path: String,
    pub root: usize,
    pub index: usize,
    pub found_dir: bool,
    pub files: Vec<Entry>,
    pub dirs: Vec<Entry>,
}

pub open spec fn ends_with_slash(p: Seq<char>) -> bool {
    p.len() > 0 && p.last() == '/'
}

/// After the roots up to `root` (excluded) are done: probe the next one, or
/// end with a listing if a directory was found, else not-found.
pub open spec fn next_root_step(root: nat, n_roots: nat, found_dir: bool) -> StepView {
    if root < n_roots {
        StepView::Probe(root)
    } else if found_dir {
        StepView::Listing
    } else {
        StepView::NotFound
    }
}

/// The step after the candidate under `root` turned out to be `kind`.
pub open spec fn probe_step(
    listing: bool,
    n_defaults: nat,
    n_roots: nat,
    path: Seq<char>,
    root: nat,
    found_dir: bool,
    kind: PathKind,
) -> StepView {
    if kind == PathKind::Dir && listing {
        if !ends_with_slash(path) {
            StepView::Redirect(path + "/"@)
        } else if n_defaults > 0 {
            StepView::ProbeIndex(root, 0)
        } else {
            StepView::Scan(root)
        }
    } else if kind == PathKind::File {
        StepView::ServeFile(root)
    } else {
        next_root_step(root + 1, n_roots, found_dir)
    }
}

/// The step after default index name `index` under `root` was looked for.
pub open spec fn index_step(n_defaults: nat, root: nat, index: nat, present: bool) -> StepView {
    if present {
        StepView::ServeIndex(root, index)
    } else if index + 1 < n_defaults {
        StepView::ProbeIndex(root, index + 1)
    } else {
        StepView::Scan(root)
    }
}

impl Resolver {
    pub open spec fn wf(&self, n_roots: nat) -> bool {
        &&& self.root <= n_roots
        &&& sorted_by_name(views(self.files@))
        &&& sorted_by_name(views(self.dirs@))
        &&& all_wf(self.files@)
        &&& all_wf(self.dirs@)
    }

    /// The gathered listing, titled by the request path.
    pub fn listing(self) -> (r: BaseInfo)
        requires
            self.wf(self.root as nat),
        ensures
            r.wf(),
            r.path@ == self.request_path@,
            r.files@ == self.files@,
            r.dirs@ == self.dirs@,
    {
        BaseInfo::new(self.request_path, self.files, self.dirs)
    }
}

fn path_ends_with_slash(p: &str) -> (r: bool)
    ensures
        r == ends_with_slash(p@),
{
    let n = p.unicode_len();
    n > 0 && p.get_char(n - 1) == '/'
}

impl Static {
    /// Starts resolving a request for `request_path`.
    pub fn begin(&self, request_path: String) -> (r: (Resolver, Step))
        ensures
            r.0.wf(self.roots@.len()),
            r.0.request_path@ == request_path@,
            r.0.root == 0,
            !r.0.found_dir,
            r.0.files@.len() == 0,
            r.0.dirs@.len() == 0,
            r.1@ == next_root_step(0, self.roots@.len(), false),
    {
        let res = Resolver {
            request_path,
            root: 0,
            index: 0,
            found_dir: false,
            files: Vec::new(),
            dirs: Vec::new(),
        };
        let step = if self.roots.len() > 0 {
            Step::Probe(0)
        } else {
            Step::NotFound
        };
        (res, step)
    }

    fn next_root(&self, res: &Resolver) -> (r: Step)
        requires
            res.root <= self.roots@.len(),
        ensures
            r@ == next_root_step(res.root as nat, self.roots@.len(), res.found_dir),
    {
        if res.root < self.roots.len() {
            Step::Probe(res.root)
        } else if res.found_dir {
            Step::Listing
        } else {
            Step::NotFound
        }
    }

    /// Takes the kind of the candidate under the current root.
    pub fn after_probe(&self, res: &mut Resolver, kind: PathKind) -> (r: Step)
        requires
            old(res).wf(self.roots@.len()),
            old(res).root < self.roots@.len(),
        ensures
            final(res).wf(self.roots@.len()),
            r@ == probe_step(
                self.options.listing,
                self.options.defaults@.len(),
                self.roots@.len(),
                old(res).request_path@,
                old(res).root as nat,
                old(res).found_dir,
                kind,
            ),
            final(res).request_path == old(res).request_path,
            final(res).files == old(res).files,
            final(res).dirs == old(res).dirs,
            final(res).found_dir == (old(res).found_dir || (kind == PathKind::Dir && self.options.listing)),
            final(res).root == (if kind == PathKind::Missing || (kind == PathKind::Dir
                && !self.options.listing) {
                old(res).root + 1
            } else {
                old(res).root as int
            }),
            kind == PathKind::Dir && self.options.listing ==> final(res).index == 0,
    {
        if kind == PathKind::Dir && self.options.listing {
            res.found_dir = true;
            res.index = 0;
            if !path_ends_with_slash(res.request_path.as_str()) {
                let mut location = res.request_path.clone();
                location.append("/");
                return Step::Redirect(location);
            }
            if self.options.defaults.len() > 0 {
                Step::ProbeIndex(res.root, 0)
            } else {
                Step::Scan(res.root)
            }
        } else if kind == PathKind::File {
            Step::ServeFile(res.root)
        } else {
            let n_roots = self.roots.len();
            assert(res.root < n_roots);
            res.root = res.root + 1;
            self.next_root(res)
        }
    }

    /// Takes whether the current default index name exists as a file.
    pub fn after_index(&self, res: &mut Resolver, present: bool) -> (r: Step)
        requires
            old(res).wf(self.roots@.len()),
            old(res).root < self.roots@.len(),
            old(res).index < self.options.defaults@.len(),
        ensures
            final(res).wf(self.roots@.len()),
            r@ == index_step(self.options.defaults@.len(), old(res).root as nat, old(res).index as nat, present),
            final(res).request_path == old(res).request_path,
            final(res).files == old(res).files,
            final(res).dirs == old(res).dirs,
            final(res).found_dir == old(res).found_dir,
            final(res).root == old(res).root,
            final(res).index == (if present { old(res).index as int } else { old(res).index + 1 }),
    {
        if present {
            Step::ServeIndex(res.root, res.index)
        } else {
            let n_defaults = self.options.defaults.len();
            assert(res.index < n_defaults);
            res.index = res.index + 1;
            if res.index < self.options.defaults.len() {
                Step::ProbeIndex(res.root, res.index)
            } else {
                Step::Scan(res.root)
            }
        }
    }

    /// Takes the entries of the candidate directory under the current root;
    /// each is kept only where no entry of its kind and name is there yet.
    pub fn after_scan(&self, res: &mut Resolver, scan: Vec<Entry>) -> (r: Step)
        requires
            old(res).wf(self.roots@.len()),
            old(res).root < self.roots@.len(),
            all_wf(scan@),
        ensures
            final(res).wf(self.roots@.len()),
            r@ == next_root_step((old(res).root + 1) as nat, self.roots@.len(), old(res).found_dir),
            views(final(res).files@).to_set() == absorb(views(old(res).files@).to_set(), views(scan@), false),
            views(final(res).dirs@).to_set() == absorb(views(old(res).dirs@).to_set(), views(scan@), true),
            final(res).request_path == old(res).request_path,
            final(res).found_dir == old(res).found_dir,
            final(res).root == old(res).root + 1,
    {
        absorb_scan(&mut res.files, &mut res.dirs, scan);
        let n_roots = self.roots.len();
        assert(res.root < n_roots);
        res.root = res.root + 1;
        self.next_root(res)
    }
}

/// A file found under a root is served from that root, and serving ends the
/// request: no later root is looked at.
pub proof fn lemma_file_served_from_first_match(
    listing: bool,
    n_defaults: nat,
    n_roots: nat,
    path: Seq<char>,
    root: nat,
    found_dir: bool,
)
    ensures
        probe_step(listing, n_defaults, n_roots, path, root, found_dir, PathKind::File)
            == StepView::ServeFile(root),
{
}

/// With listing on, a directory requested without a trailing separator is
/// answered by a redirect to the same path with the separator appended.
pub proof fn lemma_directory_redirect(
    n_defaults: nat,
    n_roots: nat,
    path: Seq<char>,
    root: nat,
    found_dir: bool,
)
    requires
        !ends_with_slash(path),
    ensures
        probe_step(true, n_defaults, n_roots, path, root, found_dir, PathKind::Dir)
            == StepView::Redirect(path + "/"@),
{
}

/// With a default index name configured, a listed directory is first looked
/// at for that name, and a present index file is served instead of a listing.
pub proof fn lemma_index_served(n_defaults: nat, n_roots: nat, path: Seq<char>, root: nat, found_dir: bool)
    requires
        n_defaults > 0,
        ends_with_slash(path),
    ensures
        probe_step(true, n_defaults, n_roots, path, root, found_dir, PathKind::Dir)
            == StepView::ProbeIndex(root, 0),
        index_step(n_defaults, root, 0, true) == StepView::ServeIndex(root, 0),
{
}

/// A path missing under every root ends in not-found: each root passes on
/// to the next, and after the last one nothing was found.
pub proof fn lemma_absent_everywhere(listing: bool, n_defaults: nat, n_roots: nat, path: Seq<char>)
    ensures
        next_root_step(0, n_roots, false) == (if n_roots > 0 {
            StepView::Probe(0)
        } else {
            StepView::NotFound
        }),
        forall|root: nat|
            root < n_roots ==> #[trigger] probe_step(
                listing,
                n_defaults,
                n_roots,
                path,
                root,
                false,
                PathKind::Missing,
            ) == (if root + 1 < n_roots {
                StepView::Probe(root + 1)
            } else {
                StepView::NotFound
            }),
{
}

} // verus!
