//! Command-line arguments: which configuration file the daemon reads.
use vstd::prelude::*;
use crate::text::{chars_of, has_prefix, str_eq, string_of};

verus! {

broadcast use vstd::string::group_string_axioms;

/// The system-wide configuration file.
pub open spec fn system_config() -> Seq<char> {
    "/etc/vectorguard/config.toml"@
}

/// What the arguments ask for.
pub enum ArgsOutcome {
    /// Read this configuration file.
    Config(String),
    /// Print the usage and exit.
    Help,
    /// Nothing chosen: the system file when it exists, else `config.toml`.
    Default,
}

/// `s` with every leading copy of `p` removed (`trim_start_matches`).
pub open spec fn strip_prefixes(s: Seq<char>, p: Seq<char>) -> Seq<char>
    decreases s.len(),
{
    if p.len() > 0 && has_prefix(s, p) {
        strip_prefixes(s.skip(p.len() as int), p)
    } else {
        s
    }
}

/// The outcome of the arguments from position `i` on (the program name is
/// at position 0): `tui` selects the system file; `--config`/`-c` take the
/// next argument when there is one; `--config=<path>` gives the path;
/// `--help`/`-h` asks for the usage; anything else is skipped.
pub open spec fn outcome_from(args: Seq<Seq<char>>, i: int) -> (Option<Seq<char>>, bool)
    decreases args.len() - i,
{
    if i < 0 || i >= args.len() {
        (None, false)
    } else {
        let a = args[i];
        if a == "tui"@ {
            (Some(system_config()), false)
        } else if (a == "--config"@ || a == "-c"@) && i + 1 < args.len() {
            (Some(args[i + 1]), false)
        } else if has_prefix(a, "--config="@) {
            (Some(strip_prefixes(a, "--config="@)), false)
        } else if a == "--help"@ || a == "-h"@ {
            (None, true)
        } else {
            outcome_from(args, i + 1)
        }
    }
}

pub open spec fn arg_texts(args: Seq<String>) -> Seq<Seq<char>> {
    args.map_values(|s: String| s@)
}

/// `r` is what `args` ask for.
pub open spec fn args_outcome(r: ArgsOutcome, args: Seq<String>) -> bool {
    match outcome_from(arg_texts(args), 1) {
        (Some(path), _) => r matches ArgsOutcome::Config(p) && p@ == path,
        (None, true) => r is Help,
        (None, false) => r is Default,
    }
}

fn strip_prefixes_exec(s: &[char], p: &[char]) -> (r: String)
    requires
        p@.len() > 0,
    ensures
        r@ == strip_prefixes(s@, p@),
{
    let mut i: usize = 0;
    assert(s@.skip(0) =~= s@);
    while p.len() <= s.len() - i && crate::text::starts_with(&s[i..s.len()], p)
        invariant
            i <= s@.len(),
            p@.len() > 0,
            strip_prefixes(s@, p@) == strip_prefixes(s@.skip(i as int), p@),
        decreases s.len() - i,
    {
        let ghost t = s@.skip(i as int);
        assert(s@.subrange(i as int, s@.len() as int) =~= t);
        assert(t.skip(p@.len() as int) =~= s@.skip(i + p@.len()));
        i = i + p.len();
    }
    let rest = &s[i..s.len()];
    proof {
        assert(rest@ =~= s@.skip(i as int));
        if i + p@.len() > s@.len() {
            assert(!has_prefix(rest@, p@));
        }
    }
    string_of(rest)
}

/// The configuration choice of the command line `args` (see `outcome_from`).
pub fn parse_args(args: &Vec<String>) -> (r: ArgsOutcome)
    ensures
        args_outcome(r, args@),
{
    let ghost av = arg_texts(args@);
    let mut i: usize = 1;
    while i < args.len()
        invariant
            av == arg_texts(args@),
            1 <= i,
            outcome_from(av, 1) == outcome_from(av, i as int),
        decreases args.len() - i,
    {
        let a = args[i].as_str();
        assert(av[i as int] == a@);
        if str_eq(a, "tui") {
            return ArgsOutcome::Config("/etc/vectorguard/config.toml".to_string());
        }
        if (str_eq(a, "--config") || str_eq(a, "-c")) && i + 1 < args.len() {
            assert(av[i + 1] == args@[i + 1]@);
            return ArgsOutcome::Config(args[i + 1].clone());
        }
        let v = chars_of(a);
        let flag = chars_of("--config=");
        if crate::text::starts_with(&v, &flag) {
            proof {
                reveal_strlit("--config=");
            }
            return ArgsOutcome::Config(strip_prefixes_exec(&v, &flag));
        }
        if str_eq(a, "--help") || str_eq(a, "-h") {
            return ArgsOutcome::Help;
        }
        i += 1;
    }
    ArgsOutcome::Default
}

} // verus!
