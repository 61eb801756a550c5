//! The command line: the directory to walk and the extensions to count.

use crate::text::texts;
use vstd::prelude::*;
use vstd::string::*;

verus! {

/// Why a run cannot start.
#[derive(Clone, Copy, Debug, PartialEq, Eq, Structural)]
pub enum ConfigError {
    /// `-d` stands last, with no directory after it.
    MissingDirectory,
    /// The directory to walk does not exist or is not a directory.
    NotADirectory,
}

/// What the command line asks for.
pub struct Args {
    pub directory: String,
    pub file_extensions: Vec<String>,
}

/// The mathematical value of [`Args`].
pub struct Request {
    pub directory: Seq<char>,
    pub extensions: Seq<Seq<char>>,
}

impl View for Args {
    type V = Request;

    open spec fn view(&self) -> Request {
        Request { directory: self.directory@, extensions: texts(self.file_extensions@) }
    }
}

/// What the arguments from position `at` on make of the request `so_far`:
/// `-d` sets the directory to the argument after it and is an error where it
/// stands last; any other argument is one more extension.
pub open spec fn parsed_from(args: Seq<Seq<char>>, at: int, so_far: Request) -> Result<
    Request,
    ConfigError,
>
    decreases args.len() - at,
{
    if at < 0 || at >= args.len() {
        Ok(so_far)
    } else if args[at] == "-d"@ {
        if at + 1 < args.len() {
            parsed_from(
                args,
                at + 2,
                Request { directory: args[at + 1], extensions: so_far.extensions },
            )
        } else {
            Err(ConfigError::MissingDirectory)
        }
    } else {
        parsed_from(
            args,
            at + 1,
            Request { directory: so_far.directory, extensions: so_far.extensions.push(args[at]) },
        )
    }
}

/// What a command line asks for. The first argument is the program's name;
/// without `-d` the directory is `.`, and without extensions every file counts.
pub open spec fn parsed(args: Seq<Seq<char>>) -> Result<Request, ConfigError> {
    parsed_from(args, 1, Request { directory: "."@, extensions: Seq::empty() })
}

impl ConfigError {
    /// The text of the message for the user.
    pub open spec fn text(self) -> Seq<char> {
        match self {
            ConfigError::MissingDirectory => "Error: -d option requires a directory path"@,
            ConfigError::NotADirectory =>
                "Error: The specified directory does not exist or is not a directory"@,
        }
    }

    /// The message for the user.
    pub fn message(&self) -> (message: String)
        ensures
            message@ == self.text(),
    {
        match self {
            ConfigError::MissingDirectory => String::from_str(
                "Error: -d option requires a directory path",
            ),
            ConfigError::NotADirectory => String::from_str(
                "Error: The specified directory does not exist or is not a directory",
            ),
        }
    }
}

/// Reads the command line.
pub fn parse_args(args: &Vec<String>) -> (outcome: Result<Args, ConfigError>)
    ensures
        match outcome {
            Ok(request) => parsed(texts(args@)) == Ok::<Request, ConfigError>(request@),
            Err(error) => parsed(texts(args@)) == Err::<Request, ConfigError>(error),
        },
{
    let flag = String::from_str("-d");
    let mut directory = String::from_str(".");
    let mut file_extensions: Vec<String> = Vec::new();
    let mut at: usize = 1;
    assert(texts(file_extensions@) =~= Seq::<Seq<char>>::empty());
    while at < args.len()
        invariant
            1 <= at,
            flag@ == "-d"@,
            parsed(texts(args@)) == parsed_from(
                texts(args@),
                at as int,
                Request { directory: directory@, extensions: texts(file_extensions@) },
            ),
        decreases args.len() - at,
    {
        if args[at] == flag {
            if at + 1 < args.len() {
                directory = args[at + 1].clone();
                at = at + 2;
            } else {
                return Err(ConfigError::MissingDirectory);
            }
        } else {
            let ghost before = texts(file_extensions@);
            file_extensions.push(args[at].clone());
            assert(texts(file_extensions@) =~= before.push(args[at as int]@));
            at = at + 1;
        }
    }
    Ok(Args { directory, file_extensions })
}

} // verus!
