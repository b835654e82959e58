//! Patterns used to match file names.
//!
//! A list of glob texts is kept as written and compiled into one matcher
//! only when the matcher is needed. Parsing and matching are done by
//! `globset`; what is assumed of it is stated on the items below that Verus
//! does not check.

use vstd::prelude::*;

verus! {

/// `globset::Glob`: a parsed glob. Nothing inside it is seen.
#[verifier::external_type_specification]
#[verifier::external_body]
pub struct ExGlob(globset::Glob);

/// `globset::GlobSetBuilder`: the globs that a set is to be built from.
/// Nothing inside it is seen.
#[verifier::external_type_specification]
#[verifier::external_body]
pub struct ExGlobSetBuilder(globset::GlobSetBuilder);

/// `globset::GlobSet`: globs compiled into one matcher. Nothing inside it
/// is seen.
#[verifier::external_type_specification]
#[verifier::external_body]
pub struct ExGlobSet(globset::GlobSet);

/// `globset::ErrorKind`: why a glob could not be parsed or a set not be
/// built. Nothing inside it is seen.
#[verifier::external_type_specification]
#[verifier::external_body]
pub struct ExGlobErrorKind(globset::ErrorKind);

/// Whether `globset::Glob::new` accepts the text as a glob.
pub uninterp spec fn glob_is_valid(pattern: Seq<char>) -> bool;

/// The text that a parsed glob was made from.
pub uninterp spec fn glob_text(glob: globset::Glob) -> Seq<char>;

/// The texts of the globs that were added to a builder, in order.
pub uninterp spec fn builder_globs(builder: globset::GlobSetBuilder) -> Seq<Seq<char>>;

/// The texts of the globs that a set was built from, in order.
pub uninterp spec fn glob_set_globs(set: globset::GlobSet) -> Seq<Seq<char>>;

/// Whether `globset::GlobSetBuilder::build` succeeds on globs with these
/// texts, each of them valid.
pub uninterp spec fn glob_set_builds(patterns: Seq<Seq<char>>) -> bool;

/// Whether the glob with this text matches the path `name`.
pub uninterp spec fn glob_matches(pattern: Seq<char>, name: Seq<char>) -> bool;

/// Whether some pattern of the list matches `name`.
pub open spec fn any_matches(patterns: Seq<Seq<char>>, name: Seq<char>) -> bool {
    exists|i: int| 0 <= i < patterns.len() && glob_matches(#[trigger] patterns[i], name)
}

/// A name is matched by some pattern of two lists put together exactly if
/// some pattern of one of them matches it.
pub proof fn lemma_any_matches_concat(a: Seq<Seq<char>>, b: Seq<Seq<char>>, name: Seq<char>)
    ensures
        any_matches(a + b, name) <==> any_matches(a, name) || any_matches(b, name),
{
    if any_matches(a, name) {
        let i = choose|i: int| 0 <= i < a.len() && glob_matches(#[trigger] a[i], name);
        assert((a + b)[i] == a[i]);
    }
    if any_matches(b, name) {
        let i = choose|i: int| 0 <= i < b.len() && glob_matches(#[trigger] b[i], name);
        assert((a + b)[a.len() + i] == b[i]);
    }
    if any_matches(a + b, name) {
        let i = choose|i: int| 0 <= i < (a + b).len() && glob_matches(#[trigger] (a + b)[i], name);
        if i < a.len() {
            assert(a[i] == (a + b)[i]);
        } else {
            assert(b[i - a.len()] == (a + b)[i]);
        }
    }
}

/// Whether every text of the list is a valid glob.
pub open spec fn all_valid(patterns: Seq<Seq<char>>) -> bool {
    forall|i: int| 0 <= i < patterns.len() ==> glob_is_valid(#[trigger] patterns[i])
}

/// Whether the list can be compiled into one matcher: it holds no pattern,
/// or each of its patterns is a valid glob and the set of them can be
/// built.
pub open spec fn compiles(patterns: Seq<Seq<char>>) -> bool {
    patterns.len() == 0 || (all_valid(patterns) && glob_set_builds(patterns))
}

/// `globset::Glob::new`: parses a glob with the default options. Assumed:
/// it succeeds exactly on the texts that `glob_is_valid` names, and the
/// glob it gives remembers the text. Of a failure its kind is handed on.
#[verifier::external_body]
fn parse_glob(pattern: &str) -> (r: Result<globset::Glob, globset::ErrorKind>)
    ensures
        r is Ok <==> glob_is_valid(pattern@),
        r is Ok ==> glob_text(r->Ok_0) == pattern@,
{
    globset::Glob::new(pattern).map_err(|e| e.kind().clone())
}

/// `globset::GlobSetBuilder::new`: a builder that holds no glob.
#[verifier::external_body]
fn new_builder() -> (r: globset::GlobSetBuilder)
    ensures
        builder_globs(r) == Seq::<Seq<char>>::empty(),
{
    globset::GlobSetBuilder::new()
}

/// `globset::GlobSetBuilder::add`: appends the glob to those of the builder.
#[verifier::external_body]
fn add_glob(builder: &mut globset::GlobSetBuilder, glob: globset::Glob)
    ensures
        builder_globs(*final(builder)) == builder_globs(*old(builder)).push(glob_text(glob)),
{
    builder.add(glob);
}

/// `globset::GlobSetBuilder::build`: makes a set of the globs added so far.
/// Assumed: whether it succeeds depends on the globs' texts alone, it
/// succeeds where there is none, and the set holds the builder's globs. Of
/// a failure its kind is handed on.
#[verifier::external_body]
fn build_set(builder: &globset::GlobSetBuilder) -> (r: Result<
    globset::GlobSet,
    globset::ErrorKind,
>)
    ensures
        r is Ok <==> glob_set_builds(builder_globs(*builder)),
        builder_globs(*builder).len() == 0 ==> r is Ok,
        r is Ok ==> glob_set_globs(r->Ok_0) == builder_globs(*builder),
{
    builder.build().map_err(|e| e.kind().clone())
}

/// `globset::GlobSet::empty`: the set of no glob.
#[verifier::external_body]
fn empty_set() -> (r: globset::GlobSet)
    ensures
        glob_set_globs(r) == Seq::<Seq<char>>::empty(),
{
    globset::GlobSet::empty()
}

/// `globset::GlobSet::is_match`: whether any glob of the set matches the
/// path.
#[verifier::external_body]
fn set_is_match(set: &globset::GlobSet, name: &str) -> (r: bool)
    ensures
        r == (exists|i: int|
            0 <= i < glob_set_globs(*set).len() && glob_matches(
                #[trigger] glob_set_globs(*set)[i],
                name@,
            )),
{
    set.is_match(name)
}

/// A list of glob texts that has not been compiled yet.
#[derive(Debug, PartialEq, Eq)]
pub struct PatternSetBuilder {
    pub globs: Vec<String>,
}

impl View for PatternSetBuilder {
    type V = Seq<Seq<char>>;

    open spec fn view(&self) -> Seq<Seq<char>> {
        self.globs.deep_view()
    }
}

/// A compiled list of globs, which answers whether a file name matches any
/// of them.
#[derive(Debug)]
pub struct PatternSet {
    set: globset::GlobSet,
}

impl View for PatternSet {
    type V = Seq<Seq<char>>;

    /// The texts of the globs that the matcher was compiled from.
    closed spec fn view(&self) -> Seq<Seq<char>> {
        glob_set_globs(self.set)
    }
}

impl PatternSet {
    /// The matcher of no pattern: it matches nothing.
    pub fn empty() -> (r: PatternSet)
        ensures
            r@ == Seq::<Seq<char>>::empty(),
    {
        PatternSet { set: empty_set() }
    }

    /// Whether some glob of the set matches the file name.
    pub fn is_match(&self, name: &str) -> (r: bool)
        ensures
            r == any_matches(self@, name@),
    {
        set_is_match(&self.set, name)
    }
}

impl PatternSetBuilder {
    /// A list of the given glob texts.
    pub fn new(globs: Vec<String>) -> (r: PatternSetBuilder)
        ensures
            r@ == globs.deep_view(),
    {
        PatternSetBuilder { globs }
    }

    /// The glob texts of the list, in order.
    pub fn iter(&self) -> (r: &Vec<String>)
        ensures
            r.deep_view() == self@,
    {
        &self.globs
    }

    /// The glob texts of the list, in order, the list given up.
    pub fn into_iter(self) -> (r: Vec<String>)
        ensures
            r.deep_view() == self@,
    {
        self.globs
    }

    /// Whether the list holds no pattern.
    pub fn is_empty(&self) -> (r: bool)
        ensures
            r == (self@.len() == 0),
    {
        self.globs.len() == 0
    }

    /// Compiles the list into one matcher.
    ///
    /// A list of no pattern always compiles. Any other list compiles
    /// exactly where every text is a valid glob and the set of them can be
    /// built. The matcher then holds the list's globs in order.
    pub fn build(&self) -> (r: Result<PatternSet, globset::ErrorKind>)
        ensures
            r is Ok <==> compiles(self@),
            self@.len() == 0 ==> r is Ok,
            r is Ok ==> r->Ok_0@ == self@,
    {
        let mut builder = new_builder();
        let mut i: usize = 0;
        while i < self.globs.len()
            invariant
                i <= self.globs.len(),
                builder_globs(builder) == self@.take(i as int),
                all_valid(self@.take(i as int)),
            decreases self.globs.len() - i,
        {
            match parse_glob(self.globs[i].as_str()) {
                Ok(glob) => {
                    add_glob(&mut builder, glob);
                    assert(self@.take(i + 1) =~= self@.take(i as int).push(self@[i as int]));
                },
                Err(e) => {
                    assert(!glob_is_valid(self@[i as int]));
                    return Err(e);
                },
            }
            i += 1;
        }
        assert(self@.take(i as int) =~= self@);
        match build_set(&builder) {
            Ok(set) => Ok(PatternSet { set }),
            Err(e) => Err(e),
        }
    }
}

} // verus!
