//! Starting the program again with elevated privileges.

use vstd::prelude::*;

verus! {

/// The argument that marks a start at login.
pub const AUTOSTART_ARG: &'static str = "--autostart";

/// Whether one of the arguments is `arg`.
pub open spec fn has_argument(args: Seq<String>, arg: Seq<char>) -> bool {
    exists|i: int| 0 <= i < args.len() && (#[trigger] args[i])@ == arg
}

/// The arguments to start the program again with when it lacks elevated
/// privileges: the autostart argument if the program was started with it,
/// and nothing else. A program that is elevated is not started again.
pub fn relaunch_arguments(is_elevated: bool, args: &Vec<String>) -> (r: Option<Vec<String>>)
    ensures
        is_elevated <==> r is None,
        r matches Some(v) ==> if has_argument(args@, AUTOSTART_ARG@) {
            v@.len() == 1 && v@[0]@ == AUTOSTART_ARG@
        } else {
            v@.len() == 0
        },
{
    if is_elevated {
        return None;
    }
    let wanted: String = AUTOSTART_ARG.to_owned();
    let mut out: Vec<String> = Vec::new();
    let mut i: usize = 0;
    while i < args.len()
        invariant
            i <= args.len(),
            !is_elevated,
            wanted@ == AUTOSTART_ARG@,
            out@.len() == 0,
            forall|j: int| 0 <= j < i ==> (#[trigger] args@[j])@ != AUTOSTART_ARG@,
        decreases args.len() - i,
    {
        if args[i] == wanted {
            out.push(wanted);
            return Some(out);
        }
        i = i + 1;
    }
    Some(out)
}

} // verus!
