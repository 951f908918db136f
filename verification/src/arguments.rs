//! What the command line decides: how verbose a run is, and whether two options
//! share a short name.

use crate::settings::Verbosity;
use vstd::prelude::*;

verus! {

/// The verbosity of a run: nothing if quiet is asked for; else the level that was
/// named, if one was; else the base level, which is `Debug` in a debug build and
/// `Info` otherwise, raised by one level for each time that verbose is asked for.
pub fn verbosity(quiet: bool, specified: Option<Verbosity>, debug_build: bool, num_verbose: u8) -> (r:
    Verbosity)
    ensures
        quiet ==> r == Verbosity::Off,
        !quiet && specified is Some ==> r == specified->0,
        !quiet && specified is None ==> r.place() == Verbosity::place_up(
            if debug_build {
                4
            } else {
                3
            },
            num_verbose as int,
        ),
{
    if quiet {
        Verbosity::Off
    } else if let Some(specified) = specified {
        specified
    } else {
        let level = if debug_build {
            Verbosity::Debug
        } else {
            Verbosity::Info
        };
        level.up_max(num_verbose as usize)
    }
}

/// Whether `c` occurs in `s` at or after `from`.
pub open spec fn occurs_from(s: Seq<char>, c: char, from: int) -> bool {
    exists|k: int| from <= k < s.len() && s[k] == c
}

/// Whether `c` occurs in `s` at a position before `before`, and once more after that.
pub open spec fn repeats_before(s: Seq<char>, c: char, before: int) -> bool {
    exists|a: int| 0 <= a < before && a < s.len() && s[a] == c && occurs_from(s, c, a + 1)
}

/// Whether `c` occurs in `s` more than once.
pub open spec fn repeats(s: Seq<char>, c: char) -> bool {
    repeats_before(s, c, s.len() as int)
}

/// Whether `c` occurs in `options` at or after `from`.
fn occurs(options: &Vec<char>, c: char, from: usize) -> (r: bool)
    ensures
        r == occurs_from(options@, c, from as int),
{
    let mut k: usize = from;
    while k < options.len()
        invariant
            from <= k,
            forall|j: int| from <= j < k && j < options.len() ==> options[j] != c,
        decreases options.len() - k,
    {
        if options[k] == c {
            return true;
        }
        k = k + 1;
    }
    false
}

/// The short options that are given more than once, each of them once.
pub fn find_duplicate_short_options(short_options: &Vec<char>) -> (r: Vec<char>)
    ensures
        forall|c: char| r@.contains(c) <==> repeats(short_options@, c),
        r@.no_duplicates(),
{
    let ghost s = short_options@;
    let mut out: Vec<char> = Vec::new();
    let mut i: usize = 0;
    while i < short_options.len()
        invariant
            i <= short_options.len(),
            s == short_options@,
            forall|c: char| out@.contains(c) <==> repeats_before(s, c, i as int),
            out@.no_duplicates(),
        decreases short_options.len() - i,
    {
        let c = short_options[i];
        let ghost before = out@;
        let again = occurs(short_options, c, i + 1);
        let known = occurs(&out, c, 0);
        assert(known == before.contains(c));
        if again && !known {
            out.push(c);
        }
        proof {
            assert forall|d: char| out@.contains(d) <==> repeats_before(s, d, i + 1) by {
                if out@.contains(d) {
                    let k = choose|k: int| 0 <= k < out@.len() && out@[k] == d;
                    if k < before.len() {
                        assert(before[k] == d);
                        assert(before.contains(d));
                        let a = choose|a: int|
                            0 <= a < i && a < s.len() && s[a] == d && occurs_from(s, d, a + 1);
                        assert(0 <= a < i + 1 && s[a] == d && occurs_from(s, d, a + 1));
                    } else {
                        assert(d == c);
                        assert(s[i as int] == d && occurs_from(s, d, i + 1));
                    }
                }
                if repeats_before(s, d, i + 1) {
                    let a = choose|a: int|
                        0 <= a < i + 1 && a < s.len() && s[a] == d && occurs_from(s, d, a + 1);
                    if a < i {
                        assert(repeats_before(s, d, i as int));
                        let k = choose|k: int| 0 <= k < before.len() && before[k] == d;
                        assert(out@[k] == d);
                    } else {
                        assert(d == c && again);
                        if known {
                            let k = choose|k: int| 0 <= k < before.len() && before[k] == d;
                            assert(out@[k] == d);
                        } else {
                            assert(out@[out@.len() - 1] == d);
                        }
                    }
                }
            }
        }
        i = i + 1;
    }
    out
}

} // verus!
