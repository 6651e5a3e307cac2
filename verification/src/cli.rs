//! The command-line surface: an optional project directory, a flag that
//! skips the confirmation before switching, and a flag that only reports
//! the verdict without switching.

use crate::text::str_eq;
use vstd::prelude::*;
use vstd::string::StrSliceExecFns;

verus! {

/// The parsed command line.
#[derive(Clone, Debug)]
pub struct Args {
    /// The directory whose `.nvmrc` is read; the current directory when
    /// absent.
    pub directory: Option<String>,
    /// Switch without asking for confirmation.
    pub auto_switch: bool,
    /// Only report whether the active version matches; never switch.
    pub check_only: bool,
}

/// Why the command line was rejected.
#[derive(Clone, Copy, Debug, PartialEq, Eq, Structural)]
pub enum CliError {
    /// An argument began with `-` but is not one of the known flags.
    UnknownOption,
    /// A second positional argument followed the directory.
    UnexpectedArgument,
}

/// One pass over the arguments, left to right, folding them into the
/// settings gathered so far.
pub open spec fn cli_fold(
    args: Seq<Seq<char>>,
    dir: Option<Seq<char>>,
    auto: bool,
    check: bool,
) -> Result<(Option<Seq<char>>, bool, bool), CliError>
    decreases args.len(),
{
    if args.len() == 0 {
        Ok((dir, auto, check))
    } else {
        let a = args[0];
        if a == "-a"@ || a == "--auto-switch"@ {
            cli_fold(args.drop_first(), dir, true, check)
        } else if a == "-c"@ || a == "--check-only"@ {
            cli_fold(args.drop_first(), dir, auto, true)
        } else if a.len() > 0 && a[0] == '-' {
            Err(CliError::UnknownOption)
        } else if dir is None {
            cli_fold(args.drop_first(), Some(a), auto, check)
        } else {
            Err(CliError::UnexpectedArgument)
        }
    }
}

/// What a whole command line (without the program name) means.
pub open spec fn parse_cli_spec(args: Seq<Seq<char>>) -> Result<
    (Option<Seq<char>>, bool, bool),
    CliError,
> {
    cli_fold(args, None, false, false)
}

/// Parses the command line handed over by the caller, program name
/// already removed.
pub fn parse_cli_args(args: &Vec<String>) -> (r: Result<Args, CliError>)
    ensures
        match r {
            Ok(a) => parse_cli_spec(args.deep_view()) == Ok::<
                (Option<Seq<char>>, bool, bool),
                CliError,
            >((a.directory.deep_view(), a.auto_switch, a.check_only)),
            Err(e) => parse_cli_spec(args.deep_view()) == Err::<
                (Option<Seq<char>>, bool, bool),
                CliError,
            >(e),
        },
{
    let ghost all = args.deep_view();
    proof {
        assert(all.skip(0) =~= all);
    }
    let mut directory: Option<String> = None;
    let mut auto_switch: bool = false;
    let mut check_only: bool = false;
    let mut i: usize = 0;
    while i < args.len()
        invariant
            0 <= i <= args.len(),
            all == args.deep_view(),
            cli_fold(all.skip(i as int), directory.deep_view(), auto_switch, check_only)
                == parse_cli_spec(all),
        decreases args.len() - i,
    {
        let a = &args[i];
        proof {
            assert(all.skip(i as int)[0] == a@);
            assert(all.skip(i as int).drop_first() =~= all.skip(i as int + 1));
        }
        if str_eq(a.as_str(), "-a") || str_eq(a.as_str(), "--auto-switch") {
            auto_switch = true;
        } else if str_eq(a.as_str(), "-c") || str_eq(a.as_str(), "--check-only") {
            check_only = true;
        } else {
            let n = a.as_str().unicode_len();
            if n > 0 && a.as_str().get_char(0) == '-' {
                return Err(CliError::UnknownOption);
            }
            match directory {
                Option::None => { directory = Some(a.clone()) },
                Option::Some(_) => { return Err(CliError::UnexpectedArgument) },
            }
        }
        i = i + 1;
    }
    proof {
        assert(all.skip(i as int) =~= Seq::<Seq<char>>::empty());
    }
    Ok(Args { directory, auto_switch, check_only })
}

} // verus!
