use vstd::prelude::*;

use globset::{Error as GlobError, GlobSet, GlobSetBuilder};

verus! {

/// globset's compiled set of globs, held opaque.
#[verifier::external_type_specification]
#[verifier::external_body]
pub struct ExGlobSet(GlobSet);

/// globset's builder of a set of globs, held opaque.
#[verifier::external_type_specification]
#[verifier::external_body]
pub struct ExGlobSetBuilder(GlobSetBuilder);

/// globset's error for a pattern or a set that does not compile, held opaque.
#[verifier::external_type_specification]
#[verifier::external_body]
pub struct ExGlobError(GlobError);

/// Whether globset parses `pattern` as a glob.
pub uninterp spec fn glob_parses(pattern: Seq<char>) -> bool;

/// Whether the glob written `pattern` matches `path`.
pub uninterp spec fn glob_matches(pattern: Seq<char>, path: Seq<char>) -> bool;

/// Whether globset builds one set from these parsed patterns.
pub uninterp spec fn set_builds(globs: Seq<Seq<char>>) -> bool;

/// The patterns a builder holds, in the order added.
pub uninterp spec fn builder_globs(b: GlobSetBuilder) -> Seq<Seq<char>>;

/// The patterns a compiled set holds, in the order added.
pub uninterp spec fn set_globs(s: GlobSet) -> Seq<Seq<char>>;

/// Whether any of `globs` matches `path`.
pub open spec fn any_glob_matches(globs: Seq<Seq<char>>, path: Seq<char>) -> bool {
    exists|i: int| 0 <= i < globs.len() && glob_matches(globs[i], path)
}

pub open spec fn string_views(v: Seq<String>) -> Seq<Seq<char>> {
    v.map_values(|s: String| s@)
}

pub proof fn lemma_views_push(v: Seq<String>, s: String)
    ensures
        string_views(v.push(s)) == string_views(v).push(s@),
{
    assert(string_views(v.push(s)) =~= string_views(v).push(s@));
}

/// Relies on globset::GlobSetBuilder::new: a builder that holds no glob.
#[verifier::external_body]
fn new_builder() -> (r: GlobSetBuilder)
    ensures
        builder_globs(r) == Seq::<Seq<char>>::empty(),
{
    GlobSetBuilder::new()
}

/// Relies on globset::Glob::new, which parses `pattern` and fails when it
/// cannot, and on globset::GlobSetBuilder::add, which appends the parsed glob.
#[verifier::external_body]
fn add_pattern(b: &mut GlobSetBuilder, pattern: &str) -> (r: Result<(), GlobError>)
    ensures
        r is Ok <==> glob_parses(pattern@),
        r is Ok ==> builder_globs(*final(b)) == builder_globs(*old(b)).push(pattern@),
        r is Err ==> builder_globs(*final(b)) == builder_globs(*old(b)),
{
    let glob = globset::Glob::new(pattern)?;
    b.add(glob);
    Ok(())
}

/// Relies on globset::GlobSetBuilder::build: whether it succeeds depends on
/// the builder's patterns alone, and a set built holds those globs.
#[verifier::external_body]
fn build_set(b: &GlobSetBuilder) -> (r: Result<GlobSet, GlobError>)
    ensures
        r is Ok <==> set_builds(builder_globs(*b)),
        r matches Ok(s) ==> set_globs(s) == builder_globs(*b),
{
    b.build()
}

/// Relies on globset::GlobSet::is_match: true when any glob of the set
/// matches the path.
#[verifier::external_body]
fn set_is_match(s: &GlobSet, path: &str) -> (r: bool)
    ensures
        r == (exists|i: int|
            0 <= i < set_globs(*s).len() && glob_matches(#[trigger] set_globs(*s)[i], path@)),
{
    s.is_match(path)
}

/// Compiles `patterns` into one set. A pattern that does not parse fails the
/// whole set, before any later pattern is read.
pub fn compile_globs(patterns: &Vec<String>) -> (r: Result<GlobSet, GlobError>)
    ensures
        (exists|i: int| 0 <= i < patterns.len() && !glob_parses(#[trigger] patterns@[i]@)) ==> r is Err,
        ((forall|i: int| 0 <= i < patterns.len() ==> glob_parses(#[trigger] patterns@[i]@))
            && set_builds(string_views(patterns@))) ==> r is Ok,
        r matches Ok(s) ==> set_globs(s) == string_views(patterns@),
{
    let mut b = new_builder();
    let mut i: usize = 0;
    while i < patterns.len()
        invariant
            i <= patterns.len(),
            builder_globs(b) == string_views(patterns@).take(i as int),
            forall|j: int| 0 <= j < i ==> glob_parses(#[trigger] patterns@[j]@),
        decreases patterns.len() - i,
    {
        let added = add_pattern(&mut b, patterns[i].as_str());
        if added.is_err() {
            return Err(added.unwrap_err());
        }
        assert(string_views(patterns@).take(i + 1) =~= string_views(patterns@).take(i as int).push(
            patterns@[i as int]@,
        ));
        i = i + 1;
    }
    assert(string_views(patterns@).take(i as int) =~= string_views(patterns@));
    build_set(&b)
}

/// Whether the set matches `path`.
pub fn glob_set_matches(s: &GlobSet, path: &str) -> (r: bool)
    ensures
        r == any_glob_matches(set_globs(*s), path@),
{
    set_is_match(s, path)
}

} // verus!
