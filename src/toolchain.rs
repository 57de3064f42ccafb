use vstd::prelude::*;
use crate::paths::{get_basename, has_basename, basename_start, join, path_join, workdir};
use crate::text::{ends_with, is_suffix, last_index_of, same_text};

verus! {

/// The cross toolchain prefix of each target that the test programs can be built for.
pub open spec fn toolchain_prefix_of(target: Seq<char>) -> Option<Seq<char>> {
    if target == "aarch64-unknown-linux-gnu"@ {
        Some("aarch64-linux-gnu-"@)
    } else if target == "armv7-unknown-linux-gnueabihf"@ {
        Some("arm-linux-gnueabihf-"@)
    } else if target == "mips64-unknown-linux-gnuabi64"@ {
        Some("mips64-linux-gnuabi64-"@)
    } else if target == "x86_64-unknown-linux-gnu"@ {
        Some("x86_64-linux-gnu-"@)
    } else {
        None
    }
}

/// A target is supported when it is not configured (the host's own compiler)
/// or has a known toolchain prefix.
pub open spec fn is_supported_target(target: Option<&str>) -> bool {
    match target {
        Some(t) => toolchain_prefix_of(t@) is Some,
        None => true,
    }
}

/// The prefix of the compiler's name for a target: none for the host.
pub open spec fn prefix_of(target: Option<&str>) -> Seq<char> {
    match target {
        Some(t) => toolchain_prefix_of(t@).unwrap(),
        None => Seq::empty(),
    }
}

/// Looks up the cross toolchain prefix of a target; `None` for an unknown target.
pub fn known_toolchain_prefix(target: &str) -> (r: Option<&'static str>)
    ensures
        r is None <==> toolchain_prefix_of(target@) is None,
        r is Some ==> toolchain_prefix_of(target@) == Some(r->0@),
{
    if same_text(target, "aarch64-unknown-linux-gnu") {
        Some("aarch64-linux-gnu-")
    } else if same_text(target, "armv7-unknown-linux-gnueabihf") {
        Some("arm-linux-gnueabihf-")
    } else if same_text(target, "mips64-unknown-linux-gnuabi64") {
        Some("mips64-linux-gnuabi64-")
    } else if same_text(target, "x86_64-unknown-linux-gnu") {
        Some("x86_64-linux-gnu-")
    } else {
        None
    }
}

/// The prefix of the compiler's name for the configured target.
pub fn target_toolchain_prefix(target: Option<&str>) -> (r: &'static str)
    requires
        is_supported_target(target),
    ensures
        r@ == prefix_of(target),
{
    proof {
        reveal_strlit("");
    }
    match target {
        Some(t) => match known_toolchain_prefix(t) {
            Some(prefix) => prefix,
            None => "",
        },
        None => "",
    }
}

/// The C compiler for the configured target.
pub fn compiler_cc(target: Option<&str>) -> (r: String)
    requires
        is_supported_target(target),
    ensures
        r@ == prefix_of(target) + "gcc"@,
{
    let mut r = String::from_str(target_toolchain_prefix(target));
    r.append("gcc");
    r
}

/// The C++ compiler for the configured target.
pub fn compiler_cxx(target: Option<&str>) -> (r: String)
    requires
        is_supported_target(target),
    ensures
        r@ == prefix_of(target) + "g++"@,
{
    let mut r = String::from_str(target_toolchain_prefix(target));
    r.append("g++");
    r
}

/// A program to run, its arguments and the directory to run it in.
pub struct Command {
    pub program: String,
    pub args: Vec<String>,
    pub cwd: String,
}

/// What each string of a sequence holds.
pub open spec fn texts(v: Seq<String>) -> Seq<Seq<char>> {
    v.map_values(|s: String| s@)
}

/// What each string slice of a sequence holds.
pub open spec fn str_texts(v: Seq<&str>) -> Seq<Seq<char>> {
    v.map_values(|s: &str| s@)
}

/// Where a test program's source file lies in the repository.
pub open spec fn test_program_path(repository_root: Seq<char>, source: Seq<char>) -> Seq<char> {
    path_join(path_join(path_join(repository_root, "integration-tests"@), "test-programs"@), source)
}

/// A source file is C (rather than C++) when its name ends in `.c`.
pub open spec fn is_c_source(source: Seq<char>) -> bool {
    is_suffix(source, ".c"@)
}

/// The compiler's arguments for a test program: the language standard for
/// C++, unwind tables, no optimisation, threads, full debug information, the
/// source, the output named after the source's base name, then the extra flags.
pub open spec fn compile_args(
    repository_root: Seq<char>,
    source: Seq<char>,
    extra_flags: Seq<Seq<char>>,
) -> Seq<Seq<char>> {
    let standard: Seq<Seq<char>> = if is_c_source(source) {
        Seq::empty()
    } else {
        seq!["-std=c++11"@]
    };
    standard + seq![
        "-fasynchronous-unwind-tables"@,
        "-O0"@,
        "-pthread"@,
        "-ggdb3"@,
        test_program_path(repository_root, source),
        "-o"@,
        source.subrange(basename_start(source), last_index_of(source, '.')),
    ] + extra_flags
}

fn push_text(args: &mut Vec<String>, s: &str)
    ensures
        texts(final(args)@) == texts(old(args)@).push(s@),
{
    args.push(String::from_str(s));
    assert(texts(final(args)@) =~= texts(old(args)@).push(s@));
}

/// The command that builds a test program of the repository, with extra
/// compiler flags, in the working directory of the configured target.
pub fn compile_with_flags(
    repository_root: &str,
    target: Option<&str>,
    source: &str,
    extra_flags: &[&str],
) -> (r: Command)
    requires
        is_supported_target(target),
        has_basename(source@),
    ensures
        r.program@ == prefix_of(target) + (if is_c_source(source@) {
            "gcc"@
        } else {
            "g++"@
        }),
        texts(r.args@) == compile_args(repository_root@, source@, str_texts(extra_flags@)),
        r.cwd@ == (match target {
            Some(t) => path_join(path_join(repository_root@, "target"@), t@),
            None => path_join(repository_root@, "target"@),
        }),
{
    let cwd = workdir(repository_root, target);
    let basename = get_basename(source);
    let p = join(repository_root, "integration-tests");
    let p = join(p.as_str(), "test-programs");
    let source_path = join(p.as_str(), source);
    let is_c = ends_with(source, ".c");

    let mut args: Vec<String> = Vec::new();
    if !is_c {
        push_text(&mut args, "-std=c++11");
    }
    push_text(&mut args, "-fasynchronous-unwind-tables");
    push_text(&mut args, "-O0");
    push_text(&mut args, "-pthread");
    push_text(&mut args, "-ggdb3");
    push_text(&mut args, source_path.as_str());
    push_text(&mut args, "-o");
    push_text(&mut args, basename);
    let ghost fixed = texts(args@);
    assert(fixed == compile_args(repository_root@, source@, Seq::empty()));

    let mut i: usize = 0;
    while i < extra_flags.len()
        invariant
            i <= extra_flags@.len(),
            texts(args@) == fixed + str_texts(extra_flags@).subrange(0, i as int),
        decreases extra_flags@.len() - i,
    {
        push_text(&mut args, extra_flags[i]);
        assert(str_texts(extra_flags@).subrange(0, i + 1) =~= str_texts(extra_flags@).subrange(
            0,
            i as int,
        ).push(extra_flags@[i as int]@));
        i = i + 1;
    }
    assert(str_texts(extra_flags@).subrange(0, extra_flags@.len() as int) =~= str_texts(
        extra_flags@,
    ));
    let program = if is_c {
        compiler_cc(target)
    } else {
        compiler_cxx(target)
    };
    Command { program, args, cwd }
}

/// The command that builds a test program with no extra flags.
pub fn compile(repository_root: &str, target: Option<&str>, source: &str) -> (r: Command)
    requires
        is_supported_target(target),
        has_basename(source@),
    ensures
        r.program@ == prefix_of(target) + (if is_c_source(source@) {
            "gcc"@
        } else {
            "g++"@
        }),
        texts(r.args@) == compile_args(repository_root@, source@, Seq::empty()),
        r.cwd@ == (match target {
            Some(t) => path_join(path_join(repository_root@, "target"@), t@),
            None => path_join(repository_root@, "target"@),
        }),
{
    let no_flags: Vec<&str> = Vec::new();
    let r = compile_with_flags(repository_root, target, source, no_flags.as_slice());
    assert(str_texts(no_flags@) =~= Seq::empty());
    r
}

} // verus!
