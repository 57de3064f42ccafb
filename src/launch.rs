use vstd::prelude::*;
use crate::text::same_text;

verus! {

/// An environment variable's name and value.
pub type EnvVar = (String, String);

/// `i` is the first position of `envs` whose variable is named `key`.
pub open spec fn is_first_key(envs: Seq<EnvVar>, key: Seq<char>, i: int) -> bool {
    0 <= i < envs.len() && envs[i].0@ == key && forall|j: int| 0 <= j < i ==> envs[j].0@ != key
}

/// Some variable of `envs` is named `key`.
pub open spec fn has_key(envs: Seq<EnvVar>, key: Seq<char>) -> bool {
    exists|i: int| 0 <= i < envs.len() && envs[i].0@ == key
}

/// The variable through which the profiler is preloaded into a program.
pub open spec fn preload_var() -> Seq<char> {
    "LD_PRELOAD"@
}

/// The variable that hands the preload setting to a runner, which applies it
/// to the program it runs rather than to itself.
pub open spec fn runner_preload_var() -> Seq<char> {
    "TARGET_LD_PRELOAD"@
}

/// Rewrites a command so that it runs through `runner` (an emulator, say)
/// where one is configured: the runner becomes the program, the given
/// program its first argument, and the first preload variable moves to the
/// end under the runner's name. Without a runner the command is unchanged.
pub fn map_to_target(
    executable: String,
    args: Vec<String>,
    envs: Vec<EnvVar>,
    runner: Option<String>,
) -> (r: (String, Vec<String>, Vec<EnvVar>))
    ensures
        runner is None ==> r == (executable, args, envs),
        runner is Some ==> r.0 == runner->0 && r.1@ == seq![executable] + args@,
        runner is Some && !has_key(envs@, preload_var()) ==> r.2 == envs,
        forall|i: int|
            runner is Some && is_first_key(envs@, preload_var(), i) ==> {
                &&& r.2@.len() == envs@.len()
                &&& r.2@.drop_last() == envs@.remove(i)
                &&& r.2@.last().0@ == runner_preload_var()
                &&& r.2@.last().1 == envs@[i].1
            },
{
    match runner {
        None => (executable, args, envs),
        Some(runner) => {
            let mut new_args: Vec<String> = Vec::new();
            new_args.push(executable);
            let mut args = args;
            new_args.append(&mut args);

            let mut envs = envs;
            let mut index: usize = 0;
            let mut found = false;
            while !found && index < envs.len()
                invariant
                    index <= envs@.len(),
                    forall|j: int| 0 <= j < index ==> envs@[j].0@ != preload_var(),
                    found ==> index < envs@.len() && envs@[index as int].0@ == preload_var(),
                decreases envs@.len() - index + (if found { 0int } else { 1int }),
            {
                if same_text(envs[index].0.as_str(), "LD_PRELOAD") {
                    found = true;
                } else {
                    index = index + 1;
                }
            }
            if found {
                let ghost before = envs@;
                assert(is_first_key(before, preload_var(), index as int));
                let (_, value) = envs.remove(index);
                envs.push((String::from_str("TARGET_LD_PRELOAD"), value));
                assert(envs@.drop_last() == before.remove(index as int));
                assert forall|i: int| is_first_key(before, preload_var(), i) implies i
                    == index by {
                    if i < index {
                    } else if i > index {
                        assert(before[index as int].0@ == preload_var());
                    }
                }
            } else {
                assert(!has_key(envs@, preload_var()));
            }
            (runner, new_args, envs)
        },
    }
}

} // verus!
