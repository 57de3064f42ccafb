use memory_profiler_harness::control::{new_tracer, run, step, ControlEvent, TracerAction};
use memory_profiler_harness::control::ControlEvent::{Allocate, Exit, Kill, Resume, Stop};
use memory_profiler_harness::matching::LogEvent::{Allocation as Alloc, Deallocation as Free};
use memory_profiler_harness::launch::map_to_target;
use memory_profiler_harness::matching::match_deallocations;
use memory_profiler_harness::paths::{
    build_root, cli_path, get_basename, join, preload_candidates, preload_override, preload_path,
    repository_root, workdir, PreloadError,
};
use memory_profiler_harness::report::{
    executable_name_matches, is_from_function, is_from_source, Allocation, FractNanos, Frame,
    Secs, Timeval,
};
use memory_profiler_harness::text::{ends_with, rfind_char, same_text};
use memory_profiler_harness::toolchain::{
    compile, compiler_cc, compiler_cxx, known_toolchain_prefix, target_toolchain_prefix,
};

fn s(v: &str) -> String {
    v.to_owned()
}

#[test]
fn paths_are_joined_with_slashes() {
    assert_eq!(join("/a", "b"), "/a/b");
    assert_eq!(repository_root("/repo/integration-tests"), "/repo/integration-tests/..");
    assert_eq!(cli_path("/repo"), "/repo/target/x86_64-unknown-linux-gnu/release/memory-profiler-cli");
    assert_eq!(workdir("/repo", None), "/repo/target");
    assert_eq!(workdir("/repo", Some("aarch64-unknown-linux-gnu")), "/repo/target/aarch64-unknown-linux-gnu");
}

#[test]
fn build_root_follows_the_override() {
    assert_eq!(build_root(None, "/repo"), "/repo/target");
    assert_eq!(build_root(Some("/tmp/out"), "/repo"), "/tmp/out");
    assert_eq!(build_root(Some("out"), "/repo"), "/repo/out");
    assert_eq!(build_root(Some(""), "/repo"), "/repo/");
}

#[test]
fn basename_drops_directories_and_extension() {
    assert_eq!(get_basename("basic.c"), "basic");
    assert_eq!(get_basename("dir/alloc-in-tls.cpp"), "alloc-in-tls");
    assert_eq!(get_basename("/a/b.c/start-stop.x.c"), "start-stop.x");
    assert_eq!(get_basename("/a/.c"), "");
}

#[test]
fn text_helpers() {
    assert!(same_text("abc", "abc"));
    assert!(!same_text("abc", "abd"));
    assert!(!same_text("abc", "ab"));
    assert!(ends_with("/x/basic.c", "basic.c"));
    assert!(!ends_with("c", "basic.c"));
    assert!(ends_with("", ""));
    assert_eq!(rfind_char("a/b/c", '/'), Some(3));
    assert_eq!(rfind_char("abc", '/'), None);
}

#[test]
fn toolchain_prefixes() {
    assert_eq!(target_toolchain_prefix(None), "");
    assert_eq!(target_toolchain_prefix(Some("aarch64-unknown-linux-gnu")), "aarch64-linux-gnu-");
    assert_eq!(target_toolchain_prefix(Some("armv7-unknown-linux-gnueabihf")), "arm-linux-gnueabihf-");
    assert_eq!(target_toolchain_prefix(Some("mips64-unknown-linux-gnuabi64")), "mips64-linux-gnuabi64-");
    assert_eq!(target_toolchain_prefix(Some("x86_64-unknown-linux-gnu")), "x86_64-linux-gnu-");
    assert_eq!(known_toolchain_prefix("riscv64gc-unknown-linux-gnu"), None);
    assert_eq!(compiler_cc(None), "gcc");
    assert_eq!(compiler_cxx(Some("aarch64-unknown-linux-gnu")), "aarch64-linux-gnu-g++");
}

#[test]
fn compile_commands() {
    let c = compile("/repo", None, "basic.c");
    assert_eq!(c.program, "gcc");
    assert_eq!(c.cwd, "/repo/target");
    assert_eq!(
        c.args,
        vec![
            "-fasynchronous-unwind-tables",
            "-O0",
            "-pthread",
            "-ggdb3",
            "/repo/integration-tests/test-programs/basic.c",
            "-o",
            "basic",
        ]
    );
    let cxx = compile("/repo", Some("mips64-unknown-linux-gnuabi64"), "throw.cpp");
    assert_eq!(cxx.program, "mips64-linux-gnuabi64-g++");
    assert_eq!(cxx.cwd, "/repo/target/mips64-unknown-linux-gnuabi64");
    assert_eq!(cxx.args[0], "-std=c++11");
    assert_eq!(cxx.args[7], "throw");
}

#[test]
fn preload_candidates_and_choice() {
    let host = preload_candidates("/b", None, "x86_64-unknown-linux-gnu");
    assert_eq!(
        host,
        vec![
            "/b/x86_64-unknown-linux-gnu/debug/libmemory_profiler.so",
            "/b/x86_64-unknown-linux-gnu/release/libmemory_profiler.so",
            "/b/debug/libmemory_profiler.so",
            "/b/release/libmemory_profiler.so",
        ]
    );
    let cross = preload_candidates("/b", Some("aarch64-unknown-linux-gnu"), "x86_64-unknown-linux-gnu");
    assert_eq!(cross.len(), 2);

    assert_eq!(preload_path(host.clone(), &vec![false; 4]), Err(PreloadError::NotFound));
    assert_eq!(preload_path(host.clone(), &vec![true, false, true, false]), Err(PreloadError::Ambiguous));
    assert_eq!(preload_path(host, &vec![false, false, false, true]), Ok(s("/b/release/libmemory_profiler.so")));
    assert_eq!(preload_override("/b", "custom"), "/b/custom/libmemory_profiler.so");
}

#[test]
fn runner_takes_over_the_command() {
    let envs = vec![(s("A"), s("1")), (s("LD_PRELOAD"), s("/p.so")), (s("B"), s("2")), (s("LD_PRELOAD"), s("/q.so"))];
    let (exe, args, out) = map_to_target(s("./basic"), vec![s("x")], envs.clone(), None);
    assert_eq!((exe, args, out.clone()), (s("./basic"), vec![s("x")], envs.clone()));

    let (exe, args, out) = map_to_target(s("./basic"), vec![s("x")], envs, Some(s("qemu")));
    assert_eq!(exe, "qemu");
    assert_eq!(args, vec![s("./basic"), s("x")]);
    assert_eq!(
        out,
        vec![(s("A"), s("1")), (s("B"), s("2")), (s("LD_PRELOAD"), s("/q.so")), (s("TARGET_LD_PRELOAD"), s("/p.so"))]
    );

    let plain = vec![(s("A"), s("1"))];
    let (_, _, out) = map_to_target(s("./basic"), vec![], plain.clone(), Some(s("qemu")));
    assert_eq!(out, plain);
}

fn frame(raw: Option<&str>, source: Option<&str>) -> Frame {
    Frame {
        address: 0x10,
        address_s: s("0000000000000010"),
        count: 1,
        library: None,
        function: raw.map(s),
        raw_function: raw.map(s),
        source: source.map(s),
        line: None,
        column: None,
        is_inline: false,
    }
}

fn with_frames(frames: Vec<Frame>) -> Allocation {
    let t = Timeval { secs: Secs(0), fract_nsecs: FractNanos(0) };
    Allocation {
        address: 0x20,
        address_s: s("0000000000000020"),
        timestamp: t,
        timestamp_relative: t,
        thread: 1,
        size: 10001,
        backtrace_id: 0,
        deallocation: None,
        backtrace: frames,
        is_mmaped: false,
        in_main_arena: true,
        extra_space: 0,
    }
}

#[test]
fn fork_filter_drops_tls_setup() {
    let tls = with_frames(vec![frame(Some("allocate_dtv"), Some("dl-tls.c")), frame(Some("main"), Some("/src/fork.c"))]);
    let own = with_frames(vec![frame(None, None), frame(Some("main"), Some("/src/fork.c"))]);
    assert!(is_from_source(&tls, "fork.c"));
    assert!(is_from_function(&tls, "allocate_dtv"));
    assert!(!is_from_function(&own, "allocate_dtv"));
    assert!(is_from_source(&own, "fork.c"));
    assert!(!is_from_source(&own, "basic.c"));
    assert!(!is_from_function(&own, "_dl_allocate_tls"));
}

#[test]
fn executable_names() {
    assert!(executable_name_matches("/work/target/basic", "basic"));
    assert!(executable_name_matches("basic", "basic"));
    assert!(!executable_name_matches("/work/target/basic2", "basic"));
}

#[test]
fn deallocations_pair_with_their_allocations() {
    // malloc leaked, malloc freed, malloc then realloc (a free and a new allocation),
    // calloc, then posix_memalign leaked.
    let log = vec![
        Alloc { address: 0x100, size: 10000, thread: 1 },
        Alloc { address: 0x200, size: 10001, thread: 1 },
        Free { address: 0x200, thread: 1 },
        Alloc { address: 0x300, size: 10002, thread: 1 },
        Free { address: 0x300, thread: 1 },
        Alloc { address: 0x400, size: 10003, thread: 1 },
        Alloc { address: 0x200, size: 10004, thread: 1 },
        Alloc { address: 0x10000, size: 10005, thread: 1 },
    ];
    assert_eq!(
        match_deallocations(&log),
        vec![None, Some(2), None, Some(4), None, None, None, None]
    );
}

#[test]
fn reused_address_pairs_with_latest_allocation() {
    let log = vec![
        Alloc { address: 0x100, size: 1, thread: 1 },
        Free { address: 0x100, thread: 1 },
        Alloc { address: 0x100, size: 2, thread: 2 },
        Alloc { address: 0x100, size: 3, thread: 2 },
        Free { address: 0x100, thread: 2 },
        Free { address: 0x100, thread: 2 },
        Free { address: 0x999, thread: 2 },
    ];
    assert_eq!(match_deallocations(&log), vec![Some(1), None, Some(5), Some(4), None, None, None]);
}

#[test]
fn start_stop_segments() {
    let events = vec![
        Allocate { id: 10001 },
        Resume,
        Allocate { id: 10002 },
        Allocate { id: 20002 },
        Stop,
        Allocate { id: 20009 },
        Resume,
        Allocate { id: 10004 },
        Exit,
        Allocate { id: 10005 },
        Resume,
    ];
    assert_eq!(run(false, &events), vec![vec![10002, 20002], vec![10004]]);
    assert_eq!(run(true, &events), vec![vec![10001], vec![10002, 20002], vec![10004]]);
    assert_eq!(run(false, &vec![Resume, Resume, Resume]), vec![Vec::<u64>::new(), vec![], vec![]]);
}

#[test]
fn killed_tracer_writes_nothing_more() {
    let events = vec![Allocate { id: 10001 }, Kill, Resume, Allocate { id: 10002 }, Exit];
    assert_eq!(run(true, &events), vec![vec![10001]]);

    let mut state = new_tracer(true);
    assert_eq!(step(&mut state, Allocate { id: 1 }), TracerAction::Record);
    assert_eq!(step(&mut state, Exit), TracerAction::Close);
    assert_eq!(step(&mut state, Exit), TracerAction::Ignore);
    assert_eq!(step(&mut state, Kill), TracerAction::Ignore);
    assert!(state.ended && !state.recording);
}
