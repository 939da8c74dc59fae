//! Which request paths are captured: glob allowlist and denylist.

use vstd::prelude::*;
use vstd::string::*;

verus! {

#[verifier::external_type_specification]
#[verifier::external_body]
pub struct ExGlob(globset::Glob);

#[verifier::external_type_specification]
#[verifier::external_body]
pub struct ExGlobSet(globset::GlobSet);

/// What `globset::GlobBuilder` builds from a pattern, or the text of its error.
pub uninterp spec fn built_glob(pattern: Seq<char>, literal_separator: bool) -> Result<
    globset::Glob,
    Seq<char>,
>;

/// The glob matches the path.
pub uninterp spec fn glob_matches(glob: globset::Glob, path: Seq<char>) -> bool;

/// The globs of a set, in the order in which they were given.
pub uninterp spec fn globs_of(set: globset::GlobSet) -> Seq<globset::Glob>;

/// The text of the error where `globset::GlobSet::new` refuses the globs.
pub uninterp spec fn set_error(globs: Seq<globset::Glob>) -> Option<Seq<char>>;

/// Calls `globset::GlobBuilder::build`. Patterns and paths are taken as on
/// platforms that separate paths with a slash alone. An error comes back as its
/// text.
#[verifier::external_body]
fn build_glob(pattern: &str, literal_separator: bool) -> (r: Result<globset::Glob, String>)
    ensures
        match r {
            Ok(g) => built_glob(pattern@, literal_separator) == Ok::<globset::Glob, Seq<char>>(g),
            Err(e) => built_glob(pattern@, literal_separator) == Err::<globset::Glob, Seq<char>>(
                e@,
            ),
        },
{
    globset::GlobBuilder::new(pattern)
        .literal_separator(literal_separator)
        .build()
        .map_err(|e| e.to_string())
}

/// Calls `globset::GlobSet::new`, which makes a set of the globs or refuses
/// them. An error comes back as its text.
#[verifier::external_body]
fn build_set(globs: &Vec<globset::Glob>) -> (r: Result<globset::GlobSet, String>)
    ensures
        match r {
            Ok(s) => set_error(globs@) is None && globs_of(s) == globs@,
            Err(e) => set_error(globs@) == Some(e@),
        },
{
    globset::GlobSet::new(globs.iter()).map_err(|e| e.to_string())
}

/// Calls `globset::GlobSet::is_match`, which is true where any glob of the set
/// matches the path.
#[verifier::external_body]
fn set_matches(set: &globset::GlobSet, path: &str) -> (r: bool)
    ensures
        r == (exists|i: int|
            0 <= i < globs_of(*set).len() && glob_matches(#[trigger] globs_of(*set)[i], path@)),
{
    set.is_match(path)
}

/// Some glob matches the path.
pub open spec fn any_matches(globs: Seq<globset::Glob>, path: Seq<char>) -> bool {
    exists|i: int| 0 <= i < globs.len() && glob_matches(#[trigger] globs[i], path)
}

/// The globs that patterns stand for, or the error of the first one that
/// stands for none. A `*` stays within one path segment.
pub open spec fn globs_from(patterns: Seq<String>) -> Result<Seq<globset::Glob>, Seq<char>>
    decreases patterns.len(),
{
    if patterns.len() == 0 {
        Ok(Seq::empty())
    } else {
        match globs_from(patterns.drop_last()) {
            Err(e) => Err(e),
            Ok(globs) => match built_glob(patterns.last()@, true) {
                Err(e) => Err(e),
                Ok(g) => Ok(globs.push(g)),
            },
        }
    }
}

/// The set that patterns stand for: none where there are no patterns.
pub open spec fn set_from(patterns: Seq<String>) -> Result<Option<Seq<globset::Glob>>, Seq<char>> {
    if patterns.len() == 0 {
        Ok(None)
    } else {
        match globs_from(patterns) {
            Err(e) => Err(e),
            Ok(globs) => match set_error(globs) {
                Some(e) => Err(e),
                None => Ok(Some(globs)),
            },
        }
    }
}

/// A path is captured unless it is excluded; where there is an allowlist it
/// has to be on it.
pub open spec fn path_is_captured(
    capture: Option<Seq<globset::Glob>>,
    exclude: Option<Seq<globset::Glob>>,
    path: Seq<char>,
) -> bool {
    &&& exclude matches Some(globs) ==> !any_matches(globs, path)
    &&& capture matches Some(globs) ==> any_matches(globs, path)
}

/// Why path patterns do not compile.
#[derive(Debug)]
pub struct PathFilterError {
    pub message: String,
}

/// The compiled path filter.
pub struct PathFilter {
    capture: Option<globset::GlobSet>,
    exclude: Option<globset::GlobSet>,
}

/// The globs of an optional set.
pub open spec fn optional_globs(set: Option<globset::GlobSet>) -> Option<Seq<globset::Glob>> {
    match set {
        Some(s) => Some(globs_of(s)),
        None => None,
    }
}

impl PathFilter {
    /// The globs of the allowlist.
    pub closed spec fn capture_globs(&self) -> Option<Seq<globset::Glob>> {
        optional_globs(self.capture)
    }

    /// The globs of the denylist.
    pub closed spec fn exclude_globs(&self) -> Option<Seq<globset::Glob>> {
        optional_globs(self.exclude)
    }

    /// The path is captured.
    pub open spec fn captures(&self, path: Seq<char>) -> bool {
        path_is_captured(self.capture_globs(), self.exclude_globs(), path)
    }

    /// Compiles the allowlist and the denylist. The first pattern that is no
    /// glob decides the error, the allowlist before the denylist.
    pub fn compile(capture_paths: &[String], exclude_paths: &[String]) -> (r: Result<
        PathFilter,
        PathFilterError,
    >)
        ensures
            match r {
                Ok(f) => set_from(capture_paths@) == Ok::<
                    Option<Seq<globset::Glob>>,
                    Seq<char>,
                >(f.capture_globs()) && set_from(exclude_paths@) == Ok::<
                    Option<Seq<globset::Glob>>,
                    Seq<char>,
                >(f.exclude_globs()),
                Err(e) => match set_from(capture_paths@) {
                    Err(m) => e.message@ == m,
                    Ok(_) => set_from(exclude_paths@) == Err::<
                        Option<Seq<globset::Glob>>,
                        Seq<char>,
                    >(e.message@),
                },
            },
    {
        let capture = match build_globset(capture_paths) {
            Ok(s) => s,
            Err(message) => {
                return Err(PathFilterError { message });
            },
        };
        let exclude = match build_globset(exclude_paths) {
            Ok(s) => s,
            Err(message) => {
                return Err(PathFilterError { message });
            },
        };
        Ok(PathFilter { capture, exclude })
    }

    /// Whether a request to the path is captured.
    pub fn should_capture(&self, endpoint: &str) -> (r: bool)
        ensures
            r == self.captures(endpoint@),
    {
        match &self.exclude {
            Some(set) => {
                if set_matches(set, endpoint) {
                    return false;
                }
            },
            None => {},
        }
        match &self.capture {
            Some(set) => set_matches(set, endpoint),
            None => true,
        }
    }
}

/// Builds the set that patterns stand for.
fn build_globset(patterns: &[String]) -> (r: Result<Option<globset::GlobSet>, String>)
    ensures
        match r {
            Ok(s) => set_from(patterns@) == Ok::<Option<Seq<globset::Glob>>, Seq<char>>(
                optional_globs(s),
            ),
            Err(e) => set_from(patterns@) == Err::<Option<Seq<globset::Glob>>, Seq<char>>(e@),
        },
{
    if patterns.len() == 0 {
        return Ok(None);
    }
    let mut globs: Vec<globset::Glob> = Vec::new();
    let mut i: usize = 0;
    proof {
        assert(patterns@.take(0) =~= Seq::<String>::empty());
        assert(globs@ =~= Seq::<globset::Glob>::empty());
    }
    while i < patterns.len()
        invariant
            i <= patterns@.len(),
            patterns@.len() > 0,
            globs_from(patterns@.take(i as int)) == Ok::<Seq<globset::Glob>, Seq<char>>(globs@),
        decreases patterns@.len() - i,
    {
        proof {
            assert(patterns@.take(i + 1).drop_last() =~= patterns@.take(i as int));
            assert(patterns@.take(i + 1).last() == patterns@[i as int]);
        }
        match build_glob(patterns[i].as_str(), true) {
            Ok(g) => {
                globs.push(g);
            },
            Err(e) => {
                proof {
                    lemma_error_stays(patterns@, i + 1, e@);
                }
                return Err(e);
            },
        }
        i += 1;
    }
    proof {
        assert(patterns@.take(i as int) =~= patterns@);
    }
    match build_set(&globs) {
        Ok(s) => Ok(Some(s)),
        Err(e) => Err(e),
    }
}

/// An error in the front of the patterns is the error of all of them.
proof fn lemma_error_stays(patterns: Seq<String>, n: int, e: Seq<char>)
    requires
        0 <= n <= patterns.len(),
        globs_from(patterns.take(n)) == Err::<Seq<globset::Glob>, Seq<char>>(e),
    ensures
        globs_from(patterns) == Err::<Seq<globset::Glob>, Seq<char>>(e),
    decreases patterns.len() - n,
{
    if n == patterns.len() {
        assert(patterns.take(n) =~= patterns);
    } else {
        assert(patterns.take(n + 1).drop_last() =~= patterns.take(n));
        lemma_error_stays(patterns, n + 1, e);
    }
}

/// The denylist wins: a path that it matches is not captured, whatever the
/// allowlist says.
pub proof fn law_exclusion_wins(
    capture: Option<Seq<globset::Glob>>,
    exclude: Seq<globset::Glob>,
    path: Seq<char>,
)
    requires
        any_matches(exclude, path),
    ensures
        !path_is_captured(capture, Some(exclude), path),
{
}

/// Without patterns every path is captured, and a denylist alone leaves out
/// what it matches and nothing else.
pub proof fn law_empty_lists_filter_nothing(exclude: Seq<globset::Glob>, path: Seq<char>)
    ensures
        path_is_captured(None, None, path),
        path_is_captured(None, Some(exclude), path) == !any_matches(exclude, path),
{
}

/// A path is captured exactly where no exclusion matches it and, where there is
/// an allowlist, some pattern on it does.
pub proof fn law_which_paths_are_captured(
    capture: Seq<globset::Glob>,
    exclude: Seq<globset::Glob>,
    path: Seq<char>,
)
    ensures
        path_is_captured(Some(capture), Some(exclude), path) <==> (exists|i: int|
            0 <= i < capture.len() && glob_matches(#[trigger] capture[i], path)) && (forall|i: int|
            0 <= i < exclude.len() ==> !glob_matches(#[trigger] exclude[i], path)),
        path_is_captured(Some(capture), None, path) <==> exists|i: int|
            0 <= i < capture.len() && glob_matches(#[trigger] capture[i], path),
{
}

/// Every configured pattern counts: a list compiles to one glob for each of its
/// patterns, in order, in which a star stays within one path segment; and it
/// does not compile where one of them is no glob.
pub proof fn law_every_pattern_counts(patterns: Seq<String>)
    ensures
        match globs_from(patterns) {
            Ok(globs) => globs.len() == patterns.len() && forall|i: int|
                0 <= i < patterns.len() ==> built_glob((#[trigger] patterns[i])@, true) == Ok::<
                    globset::Glob,
                    Seq<char>,
                >(globs[i]),
            Err(e) => exists|i: int|
                0 <= i < patterns.len() && built_glob((#[trigger] patterns[i])@, true) == Err::<
                    globset::Glob,
                    Seq<char>,
                >(e),
        },
        patterns.len() == 0 ==> set_from(patterns) == Ok::<
            Option<Seq<globset::Glob>>,
            Seq<char>,
        >(None),
        patterns.len() > 0 ==> (set_from(patterns) matches Ok(s) ==> s == Some(
            globs_from(patterns)->Ok_0,
        )),
    decreases patterns.len(),
{
    if patterns.len() > 0 {
        let front = patterns.drop_last();
        law_every_pattern_counts(front);
        assert(patterns.last() == patterns[patterns.len() - 1]);
        match globs_from(front) {
            Ok(globs) => {
                assert forall|i: int| 0 <= i < front.len() implies built_glob(
                    (#[trigger] patterns[i])@,
                    true,
                ) == Ok::<globset::Glob, Seq<char>>(globs[i]) by {
                    assert(front[i] == patterns[i]);
                }
            },
            Err(e) => {
                let i = choose|i: int|
                    0 <= i < front.len() && built_glob((#[trigger] front[i])@, true) == Err::<
                        globset::Glob,
                        Seq<char>,
                    >(e);
                assert(patterns[i] == front[i]);
            },
        }
    }
}

} // verus!
