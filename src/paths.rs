use vstd::prelude::*;
use crate::text::{last_index_of, lemma_last_index_bounds, rfind_char, same_text};

verus! {

/// A path written as text, components separated by `/`.
pub open spec fn path_join(base: Seq<char>, component: Seq<char>) -> Seq<char> {
    base + "/"@ + component
}

/// A path is absolute when it starts at the root directory.
pub open spec fn is_absolute_path(p: Seq<char>) -> bool {
    p.len() > 0 && p[0] == '/'
}

/// The target triple that the harness assumes when none is configured.
pub open spec fn default_target() -> Seq<char> {
    "x86_64-unknown-linux-gnu"@
}

/// The name of the profiler's shared object that is preloaded into a target.
pub open spec fn preload_library() -> Seq<char> {
    "libmemory_profiler.so"@
}

/// Appends one component to a path.
pub fn join(base: &str, component: &str) -> (r: String)
    ensures
        r@ == path_join(base@, component@),
{
    let mut r = String::from_str(base);
    r.append("/");
    r.append(component);
    r
}

/// The repository's root, one level above the harness's own manifest directory
/// (before the file system resolves it).
pub fn repository_root(manifest_dir: &str) -> (r: String)
    ensures
        r@ == path_join(manifest_dir@, ".."@),
{
    join(manifest_dir, "..")
}

/// Where build outputs live: an absolute override is taken as it is, a
/// relative one is taken below the repository, and without one the
/// repository's `target` directory is used.
pub fn build_root(target_dir: Option<&str>, repository_root: &str) -> (r: String)
    ensures
        target_dir is None ==> r@ == path_join(repository_root@, "target"@),
        target_dir is Some && is_absolute_path(target_dir->0@) ==> r@ == target_dir->0@,
        target_dir is Some && !is_absolute_path(target_dir->0@) ==> r@ == path_join(
            repository_root@,
            target_dir->0@,
        ),
{
    match target_dir {
        Some(path) => {
            if path.unicode_len() > 0 && path.get_char(0) == '/' {
                String::from_str(path)
            } else {
                join(repository_root, path)
            }
        },
        None => join(repository_root, "target"),
    }
}

/// The release build of the command line tool that serves and gathers logs.
pub fn cli_path(repository_root: &str) -> (r: String)
    ensures
        r@ == path_join(
            path_join(
                path_join(path_join(repository_root@, "target"@), "x86_64-unknown-linux-gnu"@),
                "release"@,
            ),
            "memory-profiler-cli"@,
        ),
{
    let p = join(repository_root, "target");
    let p = join(p.as_str(), "x86_64-unknown-linux-gnu");
    let p = join(p.as_str(), "release");
    join(p.as_str(), "memory-profiler-cli")
}

/// The directory in which test programs are built and run: the repository's
/// `target` directory, or its subdirectory for a configured target.
pub fn workdir(repository_root: &str, target: Option<&str>) -> (r: String)
    ensures
        target is None ==> r@ == path_join(repository_root@, "target"@),
        target is Some ==> r@ == path_join(path_join(repository_root@, "target"@), target->0@),
{
    let path = join(repository_root, "target");
    match target {
        Some(t) => join(path.as_str(), t),
        None => path,
    }
}

/// Where the file name of a path starts: just after its last `/`.
pub open spec fn basename_start(path: Seq<char>) -> int {
    last_index_of(path, '/') + 1
}

/// A path has a base name when it holds a `.` at or after the start of its file name.
pub open spec fn has_basename(path: Seq<char>) -> bool {
    last_index_of(path, '.') >= 0 && basename_start(path) <= last_index_of(path, '.')
}

/// A source file's name without its directories and without its extension.
pub fn get_basename(path: &str) -> (r: &str)
    requires
        has_basename(path@),
    ensures
        r@ == path@.subrange(basename_start(path@), last_index_of(path@, '.')),
{
    proof {
        lemma_last_index_bounds(path@, '/');
        lemma_last_index_bounds(path@, '.');
    }
    // Positions lie below the length, which fits in `usize`: `index + 1` cannot overflow.
    let _len = path.unicode_len();
    let index_slash = match rfind_char(path, '/') {
        Some(index) => index + 1,
        None => 0,
    };
    let index_dot = match rfind_char(path, '.') {
        Some(index) => index,
        None => 0,
    };
    path.substring_char(index_slash, index_dot)
}

/// The error of `preload_path`: no build of the profiler, or more than one.
#[derive(PartialEq, Eq, Structural, Clone, Copy, Debug)]
pub enum PreloadError {
    NotFound,
    Ambiguous,
}

/// The items of `items` whose flag in `flags` is set, in their order.
pub open spec fn kept<A>(items: Seq<A>, flags: Seq<bool>) -> Seq<A>
    decreases items.len(),
{
    if items.len() == 0 {
        Seq::empty()
    } else if flags[items.len() - 1] {
        kept(items.drop_last(), flags).push(items.last())
    } else {
        kept(items.drop_last(), flags)
    }
}

/// The profiler's library inside one build directory.
pub open spec fn preload_candidate(dir: Seq<char>, profile: Seq<char>) -> Seq<char> {
    path_join(path_join(dir, profile), preload_library())
}

/// Where a build of the profiler may stand: the debug and the release build
/// for the target, and, where the target is the host, the host's own builds.
pub open spec fn preload_candidates_of(
    build_root: Seq<char>,
    target: Seq<char>,
    host_target: Seq<char>,
) -> Seq<Seq<char>> {
    let own = seq![
        preload_candidate(path_join(build_root, target), "debug"@),
        preload_candidate(path_join(build_root, target), "release"@),
    ];
    if target == host_target {
        own + seq![
            preload_candidate(build_root, "debug"@),
            preload_candidate(build_root, "release"@),
        ]
    } else {
        own
    }
}

/// The profiler's library inside one build directory.
fn candidate(dir: &str, profile: &str) -> (r: String)
    ensures
        r@ == preload_candidate(dir@, profile@),
{
    let p = join(dir, profile);
    join(p.as_str(), "libmemory_profiler.so")
}

/// The places where a build of the profiler may stand, in the order in which
/// they are considered. Without a configured target the default one is used.
pub fn preload_candidates(build_root: &str, target: Option<&str>, host_target: &str) -> (r: Vec<
    String,
>)
    ensures
        r@.len() == preload_candidates_of(
            build_root@,
            match target {
                Some(t) => t@,
                None => default_target(),
            },
            host_target@,
        ).len(),
        forall|i: int|
            0 <= i < r@.len() ==> #[trigger] r@[i]@ == preload_candidates_of(
                build_root@,
                match target {
                    Some(t) => t@,
                    None => default_target(),
                },
                host_target@,
            )[i],
{
    let target: &str = match target {
        Some(t) => t,
        None => "x86_64-unknown-linux-gnu",
    };
    let dir = join(build_root, target);
    let mut r: Vec<String> = Vec::new();
    r.push(candidate(dir.as_str(), "debug"));
    r.push(candidate(dir.as_str(), "release"));
    if same_text(target, host_target) {
        r.push(candidate(build_root, "debug"));
        r.push(candidate(build_root, "release"));
    }
    r
}

/// Picks the one build of the profiler that exists among `candidates`, where
/// `exists[i]` tells whether `candidates[i]` exists. An override path, where
/// one is configured, takes the place of this choice.
pub fn preload_path(candidates: Vec<String>, exists: &Vec<bool>) -> (r: Result<String, PreloadError>)
    requires
        exists@.len() == candidates@.len(),
    ensures
        kept(candidates@, exists@).len() == 0 <==> r == Err::<String, PreloadError>(
            PreloadError::NotFound,
        ),
        kept(candidates@, exists@).len() > 1 <==> r == Err::<String, PreloadError>(
            PreloadError::Ambiguous,
        ),
        kept(candidates@, exists@).len() == 1 <==> r == Ok::<String, PreloadError>(
            kept(candidates@, exists@)[0],
        ),
{
    let mut found: Vec<String> = Vec::new();
    let mut i: usize = 0;
    while i < candidates.len()
        invariant
            exists@.len() == candidates@.len(),
            i <= candidates@.len(),
            found@ == kept(candidates@.subrange(0, i as int), exists@),
        decreases candidates@.len() - i,
    {
        assert(candidates@.subrange(0, i + 1).drop_last() == candidates@.subrange(0, i as int));
        if exists[i] {
            found.push(candidates[i].clone());
        }
        i = i + 1;
    }
    assert(candidates@.subrange(0, candidates@.len() as int) == candidates@);
    if found.len() == 0 {
        Err(PreloadError::NotFound)
    } else if found.len() > 1 {
        Err(PreloadError::Ambiguous)
    } else {
        Ok(found.remove(0))
    }
}

/// The profiler's library below an explicitly configured build directory.
pub fn preload_override(build_root: &str, path: &str) -> (r: String)
    ensures
        r@ == path_join(path_join(build_root@, path@), preload_library()),
{
    let p = join(build_root, path);
    join(p.as_str(), "libmemory_profiler.so")
}

} // verus!
