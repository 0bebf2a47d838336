//! The command line: the numbers of users, disks and printers.

use vstd::prelude::*;
use crate::text::{parse_usize, parse_usize_spec, trim, trim_str};

verus! {

/// Why the command line does not give the three numbers.
#[derive(PartialEq, Eq, Structural, Debug, Clone, Copy)]
pub enum ArgError {
    /// Fewer than three arguments follow the program name.
    MissingArgument,
    /// The first argument is not a number of users.
    InvalidUsers,
    /// The second argument is not a number of disks.
    InvalidDisks,
    /// The third argument is not a number of printers.
    InvalidPrinters,
}

/// What one argument gives as a count: the number it spells, whitespace
/// around it aside.
pub open spec fn count_spec(arg: Seq<char>) -> Option<usize> {
    parse_usize_spec(trim(arg))
}

/// What the command line `args` (the program name first) gives: the numbers
/// of users, disks and printers, read in that order; the first argument that
/// is missing or not a number decides the error. Arguments after the third
/// are ignored.
pub open spec fn parse_args_spec(args: Seq<Seq<char>>) -> Result<(usize, usize, usize), ArgError> {
    if args.len() < 2 {
        Err(ArgError::MissingArgument)
    } else {
        match count_spec(args[1]) {
            None => Err(ArgError::InvalidUsers),
            Some(users) => if args.len() < 3 {
                Err(ArgError::MissingArgument)
            } else {
                match count_spec(args[2]) {
                    None => Err(ArgError::InvalidDisks),
                    Some(disks) => if args.len() < 4 {
                        Err(ArgError::MissingArgument)
                    } else {
                        match count_spec(args[3]) {
                            None => Err(ArgError::InvalidPrinters),
                            Some(printers) => Ok((users, disks, printers)),
                        }
                    },
                }
            },
        }
    }
}

/// The count that `arg` spells, whitespace around it aside.
pub fn parse_count(arg: &str) -> (r: Option<usize>)
    ensures
        r == count_spec(arg@),
{
    let trimmed = trim_str(arg);
    parse_usize(trimmed.as_str())
}

/// Reads the numbers of users, disks and printers from the command line
/// `args`, whose first element is the program name.
pub fn parse_args(args: &Vec<String>) -> (r: Result<(usize, usize, usize), ArgError>)
    ensures
        r == parse_args_spec(args@.map_values(|s: String| s@)),
{
    let ghost a = args@.map_values(|s: String| s@);
    if args.len() < 2 {
        return Err(ArgError::MissingArgument);
    }
    let users = match parse_count(args[1].as_str()) {
        Some(n) => n,
        None => {
            return Err(ArgError::InvalidUsers);
        },
    };
    if args.len() < 3 {
        return Err(ArgError::MissingArgument);
    }
    let disks = match parse_count(args[2].as_str()) {
        Some(n) => n,
        None => {
            return Err(ArgError::InvalidDisks);
        },
    };
    if args.len() < 4 {
        return Err(ArgError::MissingArgument);
    }
    let printers = match parse_count(args[3].as_str()) {
        Some(n) => n,
        None => {
            return Err(ArgError::InvalidPrinters);
        },
    };
    Ok((users, disks, printers))
}

/// Each count is read from its own place: when the first three arguments
/// after the program name are counts, they are, in that order, the numbers
/// of users, disks and printers, whatever follows them.
pub proof fn law_parse_args_reads_positions(args: Seq<Seq<char>>)
    requires
        args.len() >= 4,
        parse_usize_spec(trim(args[1])) is Some,
        parse_usize_spec(trim(args[2])) is Some,
        parse_usize_spec(trim(args[3])) is Some,
    ensures
        parse_args_spec(args) == Ok::<(usize, usize, usize), ArgError>(
            (
                parse_usize_spec(trim(args[1]))->0,
                parse_usize_spec(trim(args[2]))->0,
                parse_usize_spec(trim(args[3]))->0,
            ),
        ),
        parse_args_spec(args) == parse_args_spec(args.take(4)),
{
    assert(args.take(4)[1] == args[1]);
    assert(args.take(4)[2] == args[2]);
    assert(args.take(4)[3] == args[3]);
}

/// The first argument that is missing or is no count decides the error, in
/// the order users, disks, printers.
pub proof fn law_parse_args_first_failure(args: Seq<Seq<char>>)
    ensures
        args.len() < 2 ==> parse_args_spec(args) == Err::<(usize, usize, usize), ArgError>(ArgError::MissingArgument),
        args.len() >= 2 && parse_usize_spec(trim(args[1])) is None ==> parse_args_spec(args) == Err::<
            (usize, usize, usize),
            ArgError,
        >(ArgError::InvalidUsers),
        args.len() == 2 && parse_usize_spec(trim(args[1])) is Some ==> parse_args_spec(args) == Err::<
            (usize, usize, usize),
            ArgError,
        >(ArgError::MissingArgument),
        args.len() >= 3 && parse_usize_spec(trim(args[1])) is Some && parse_usize_spec(trim(args[2])) is None
            ==> parse_args_spec(args) == Err::<(usize, usize, usize), ArgError>(ArgError::InvalidDisks),
        args.len() == 3 && parse_usize_spec(trim(args[1])) is Some && parse_usize_spec(trim(args[2])) is Some
            ==> parse_args_spec(args) == Err::<(usize, usize, usize), ArgError>(ArgError::MissingArgument),
        args.len() >= 4 && parse_usize_spec(trim(args[1])) is Some && parse_usize_spec(trim(args[2])) is Some
            && parse_usize_spec(trim(args[3])) is None ==> parse_args_spec(args) == Err::<
            (usize, usize, usize),
            ArgError,
        >(ArgError::InvalidPrinters),
{
}

} // verus!
