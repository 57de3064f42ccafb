use memory_profiler_harness::report::{
    allocation_backtrace_matches, Allocation, Analysis, FractNanos, Frame, ResponseAllocations,
    Secs, Timeval,
};
use memory_profiler_harness::scenarios::{
    gather_is_graceful, start_stop_run, test_gather_generic, test_start_stop_generic,
    GatherAction,
};
use memory_profiler_harness::toolchain::compile_with_flags;

fn frame(function: &str, source: &str, line: u32) -> Frame {
    Frame {
        address: 0x1000 + line as u64,
        address_s: format!("{:016X}", 0x1000 + line as u64),
        count: 1,
        library: Some("/work/target/prog".to_owned()),
        function: Some(function.to_owned()),
        raw_function: Some(function.to_owned()),
        source: Some(source.to_owned()),
        line: Some(line),
        column: Some(5),
        is_inline: false,
    }
}

fn stamp(secs: u64) -> Timeval {
    Timeval { secs: Secs(secs), fract_nsecs: FractNanos(0) }
}

/// An allocation made by `main` in `source`, innermost frame first.
fn allocation(size: u64, thread: u32, source: &str) -> Allocation {
    Allocation {
        address: 0x5000_0000 + size,
        address_s: format!("{:016X}", 0x5000_0000 + size),
        timestamp: stamp(1),
        timestamp_relative: stamp(0),
        thread,
        size,
        backtrace_id: 0,
        deallocation: None,
        backtrace: vec![frame("malloc", "malloc.c", 10), frame("main", source, 20)],
        is_mmaped: false,
        in_main_arena: true,
        extra_space: 0,
    }
}

fn with_chain(size: u64, chain: &[&str]) -> Allocation {
    let mut a = allocation(size, 1, "throw.cpp");
    a.backtrace = chain.iter().rev().enumerate().map(|(i, f)| frame(f, "throw.cpp", i as u32)).collect();
    a
}

fn analysis(allocations: Vec<Allocation>) -> Analysis {
    let total_count = allocations.len() as u64;
    Analysis { response: ResponseAllocations { allocations, total_count } }
}

fn start_stop_case(kind: &str) {
    let run = start_stop_run(kind);
    assert_eq!(run.output, format!("start-stop_{}", kind));
    assert_eq!(run.define, format!("VARIANT_{}", kind.to_uppercase()));
    assert_eq!(run.output_template, format!("start-stop_{}_%n.dat", kind));
    assert_eq!(run.segments, vec![format!("start-stop_{}_0.dat", kind), format!("start-stop_{}_1.dat", kind)]);

    let flags = ["-o", run.output.as_str(), "-D", run.define.as_str(), "-fPIC"];
    let cmd = compile_with_flags("/repo", None, "start-stop.c", &flags);
    assert_eq!(cmd.program, "gcc");
    assert_eq!(cmd.cwd, "/repo/target");
    assert_eq!(&cmd.args[cmd.args.len() - 5..], &flags.map(|f| f.to_owned())[..]);

    // Allocations from the runtime itself carry no frame of the program's source.
    let first = analysis(vec![
        allocation(64, 1, "dl-tls.c"),
        allocation(10002, 1, "start-stop.c"),
        allocation(20002, 2, "start-stop.c"),
        allocation(10003, 1, "start-stop.c"),
    ]);
    let second = analysis(vec![allocation(10004, 1, "start-stop.c"), allocation(20003, 3, "start-stop.c")]);
    assert!(test_start_stop_generic(&first, &second));

    let leaked = analysis(vec![
        allocation(10002, 1, "start-stop.c"),
        allocation(20002, 2, "start-stop.c"),
        allocation(10003, 1, "start-stop.c"),
        allocation(10004, 1, "start-stop.c"),
    ]);
    assert!(!test_start_stop_generic(&leaked, &second));
    let one_thread = analysis(vec![allocation(10004, 1, "start-stop.c"), allocation(20003, 1, "start-stop.c")]);
    assert!(!test_start_stop_generic(&first, &one_thread));
}

#[test]
fn test_start_stop_sigusr1() {
    start_stop_case("sigusr1");
}

#[test]
fn test_start_stop_api() {
    start_stop_case("api");
}

fn gather_case(expected_allocations: usize, actions: &[GatherAction], graceful: bool) {
    assert_eq!(gather_is_graceful(actions), graceful);
    let all = [10001u64, 10002, 10003];
    let made: Vec<Allocation> = all[..expected_allocations].iter().map(|s| allocation(*s, 1, "gather.c")).collect();
    assert!(test_gather_generic(expected_allocations, 1, &analysis(made)));

    let too_many: Vec<Allocation> = all.iter().map(|s| allocation(*s, 1, "gather.c")).collect();
    assert_eq!(test_gather_generic(expected_allocations, 1, &analysis(too_many)), expected_allocations == 3);
    let made: Vec<Allocation> = all[..expected_allocations].iter().map(|s| allocation(*s, 1, "gather.c")).collect();
    assert!(!test_gather_generic(expected_allocations, 2, &analysis(made)));
}

#[test]
fn test_gather_full_graceful() {
    gather_case(3, &[GatherAction::Next, GatherAction::Sleep, GatherAction::Next, GatherAction::EarlyReturn], true);
}

#[test]
fn test_gather_initial_graceful() {
    gather_case(1, &[GatherAction::EarlyReturn], true);
}

#[test]
fn test_gather_initial_killed() {
    gather_case(1, &[GatherAction::Kill], false);
}

#[test]
fn test_gather_partial_graceful() {
    gather_case(2, &[GatherAction::Next, GatherAction::EarlyReturn], true);
}

#[test]
fn test_gather_partial_killed() {
    gather_case(1, &[GatherAction::Next, GatherAction::Sleep, GatherAction::Kill], false);
}

#[test]
fn gather_wrong_size_is_rejected() {
    let made = analysis(vec![allocation(10001, 1, "gather.c"), allocation(10005, 1, "gather.c")]);
    assert!(!test_gather_generic(2, 1, &made));
}

fn unwind_case() {
    let a0 = with_chain(123456, &["main", "foobar_5", "foobar_4", "foobar_3", "foobar_2", "foobar_1", "foobar_0", "malloc"]);
    let a1 = with_chain(123457, &["main", "foobar_5", "foobar_4", "foobar_3", "malloc"]);
    let a2 = with_chain(123458, &["main", "foobar_5", "malloc"]);
    let a3 = with_chain(123459, &["main", "malloc"]);
    let report = analysis(vec![a0, a1, a2, a3]);
    let find = |size: u64| report.response.allocations.iter().find(|a| a.size == size).unwrap();

    assert!(allocation_backtrace_matches(
        find(123456),
        &["main", "foobar_5", "foobar_4", "foobar_3", "foobar_2", "foobar_1", "foobar_0"],
    ));
    assert!(allocation_backtrace_matches(find(123457), &["main", "foobar_5", "foobar_4", "foobar_3"]));
    assert!(allocation_backtrace_matches(find(123458), &["main", "foobar_5"]));
    assert!(allocation_backtrace_matches(find(123459), &["main"]));

    assert!(!allocation_backtrace_matches(find(123458), &["main", "foobar_4"]));
    assert!(!allocation_backtrace_matches(find(123459), &["main", "malloc", "extra"]));
}

#[test]
fn test_throw() {
    unwind_case();
}

#[test]
fn test_longjmp() {
    unwind_case();
}

#[test]
fn unresolved_frame_matches_only_empty_name() {
    let mut a = with_chain(1, &["main", "lost", "malloc"]);
    a.backtrace[1].raw_function = None;
    assert!(allocation_backtrace_matches(&a, &["main", ""]));
    assert!(!allocation_backtrace_matches(&a, &["main", "lost"]));
}

#[test]
fn test_dlopen() {
    let report = analysis(vec![
        allocation(100, 1, "dlopen.c"),
        allocation(123123, 1, "dlopen_so.c"),
        allocation(200, 1, "dlopen.c"),
    ]);
    assert!(report.response.allocations.iter().any(|a| a.size == 123123));
    let found = report.allocations_from_source("dlopen_so.c");
    assert_eq!(found.len(), 1);
    assert_eq!(report.response.allocations[found[0]].size, 123123);
    assert_eq!(report.allocations_from_source("dlopen.c"), vec![0, 2]);
}
