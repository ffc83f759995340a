use vstd::prelude::*;

verus! {

pub open spec fn strings_view(s: Seq<String>) -> Seq<Seq<char>> {
    s.map_values(|x: String| x@)
}

/// What a `Static` handler does with the directories it finds.
#[derive(Clone, Debug)]
pub struct Options {
    /// Declared for configuration; entries are not filtered by it.
    pub dot_files: bool,
    /// Whether a matched directory is listed (else it counts as absent).
    pub listing: bool,
    /// File names tried, in order, inside a matched directory before listing.
    pub defaults: Vec<String>,
}

impl Options {
    /// The default options: listing on, dot files on, `index.html` tried.
    pub fn new() -> (r: Options)
        ensures
            r.dot_files,
            r.listing,
            strings_view(r.defaults@) == seq!["index.html"@],
    {
        let mut defaults: Vec<String> = Vec::new();
        defaults.push(String::from_str("index.html"));
        let r = Options { dot_files: true, listing: true, defaults };
        assert(strings_view(r.defaults@) =~= seq!["index.html"@]);
        r
    }
}

impl Default for Options {
    fn default() -> (r: Options)
        ensures
            r.dot_files,
            r.listing,
            strings_view(r.defaults@) == seq!["index.html"@],
    {
        Options::new()
    }
}

/// Sources of root directories: one path or an ordered list of them.
pub trait StaticRoots {
    spec fn root_paths(&self) -> Seq<Seq<char>>;

    /// The root paths, earliest first.
    fn collect(&self) -> (r: Vec<String>)
        ensures
            strings_view(r@) == self.root_paths(),
    ;
}

impl<'a> StaticRoots for &'a str {
    open spec fn root_paths(&self) -> Seq<Seq<char>> {
        seq![(*self)@]
    }

    fn collect(&self) -> (r: Vec<String>) {
        let mut v: Vec<String> = Vec::new();
        v.push(String::from_str(*self));
        assert(strings_view(v@) =~= seq![(*self)@]);
        v
    }
}

impl<'a> StaticRoots for Vec<&'a str> {
    open spec fn root_paths(&self) -> Seq<Seq<char>> {
        self@.map_values(|x: &'a str| x@)
    }

    fn collect(&self) -> (r: Vec<String>) {
        let mut v: Vec<String> = Vec::new();
        let mut i: usize = 0;
        while i < self.len()
            invariant
                i <= self.len(),
                strings_view(v@) == self@.map_values(|x: &'a str| x@).take(i as int),
            decreases self.len() - i,
        {
            let s = String::from_str(self[i]);
            let ghost before = v@;
            v.push(s);
            assert(strings_view(v@) =~= strings_view(before).push(self@[i as int]@));
            assert(strings_view(v@) =~= self@.map_values(|x: &'a str| x@).take(i as int + 1));
            i = i + 1;
        }
        assert(self@.map_values(|x: &'a str| x@).take(self.len() as int) =~= self@.map_values(
            |x: &'a str| x@,
        ));
        v
    }
}

/// A static-file handler over ordered roots: earlier roots take precedence.
#[derive(Clone, Debug)]
pub struct Static {
    pub roots: Vec<String>,
    pub options: Options,
}

impl Static {
    /// A handler over the given roots with the default options.
    pub fn from<T: StaticRoots>(roots: T) -> (r: Static)
        ensures
            strings_view(r.roots@) == roots.root_paths(),
            r.options.dot_files,
            r.options.listing,
            strings_view(r.options.defaults@) == seq!["index.html"@],
    {
        Static::new(roots, Options::default())
    }

    /// A handler over the given roots, in order, with the given options.
    pub fn new<T: StaticRoots>(roots: T, options: Options) -> (r: Static)
        ensures
            strings_view(r.roots@) == roots.root_paths(),
            r.options == options,
    {
        Static { roots: roots.collect(), options }
    }
}

} // verus!
