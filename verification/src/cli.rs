//! The command the process was started with, parsed from its raw argument
//! list (program name first).

use vstd::prelude::*;
use crate::text::str_eq;

verus! {

/// What the process was asked to do.
pub enum Command {
    Run,
    Setup,
    Unsetup,
    /// Holds the old executable's path, to be cleaned up after an update.
    PostUpdate(String),
}

/// The views of the argument strings.
pub open spec fn arg_views(args: Seq<String>) -> Seq<Seq<char>> {
    args.map_values(|a: String| a@)
}

/// The first index at or after `from` whose element equals `flag`.
pub open spec fn first_index_of(vs: Seq<Seq<char>>, flag: Seq<char>, from: int) -> Option<int>
    decreases vs.len() - from
        when 0 <= from <= vs.len()
{
    if from == vs.len() {
        None
    } else if vs[from] == flag {
        Some(from)
    } else {
        first_index_of(vs, flag, from + 1)
    }
}

impl Command {
    /// Parses the argument list: a `--post-update` flag anywhere wins and
    /// takes the following argument as the old executable's path (`None`
    /// when that path is missing — a fatal startup error for the caller).
    /// Otherwise the first real argument selects setup or unsetup, and
    /// anything else runs the watcher.
    pub fn from_args(args: &Vec<String>) -> (c: Option<Command>)
        ensures
            ({
                let vs = arg_views(args@);
                match first_index_of(vs, "--post-update"@, 0) {
                    Some(i) => {
                        &&& (i + 1 < vs.len() ==> match c {
                            Some(Command::PostUpdate(p)) => p@ == vs[i + 1],
                            _ => false,
                        })
                        &&& (i + 1 == vs.len() ==> c is None)
                    },
                    None => {
                        if vs.len() >= 2 && vs[1] == "--setup"@ {
                            c matches Some(Command::Setup)
                        } else if vs.len() >= 2 && vs[1] == "--unsetup"@ {
                            c matches Some(Command::Unsetup)
                        } else {
                            c matches Some(Command::Run)
                        }
                    },
                }
            }),
    {
        let n = args.len();
        let mut i: usize = 0;
        while i < n
            invariant
                i <= n,
                n == args@.len(),
                first_index_of(arg_views(args@), "--post-update"@, 0) == first_index_of(
                    arg_views(args@),
                    "--post-update"@,
                    i as int,
                ),
            decreases n - i,
        {
            let hit = str_eq(args[i].as_str(), "--post-update");
            proof {
                assert(arg_views(args@)[i as int] == args@[i as int]@);
            }
            if hit {
                if i + 1 < n {
                    proof {
                        assert(arg_views(args@)[i + 1] == args@[i + 1]@);
                    }
                    return Some(Command::PostUpdate(args[i + 1].clone()));
                }
                return None;
            }
            i += 1;
        }
        if n >= 2 {
            let second_setup = str_eq(args[1].as_str(), "--setup");
            let second_unsetup = str_eq(args[1].as_str(), "--unsetup");
            proof {
                assert(arg_views(args@)[1] == args@[1]@);
            }
            if second_setup {
                return Some(Command::Setup);
            }
            if second_unsetup {
                return Some(Command::Unsetup);
            }
        }
        Some(Command::Run)
    }
}

} // verus!
