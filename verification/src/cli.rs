//! The command line: the `serve` command and its arguments, and the check of
//! the input directory.
use vstd::prelude::*;
use crate::text;

verus! {

/// The port used when none is given.
pub const DEFAULT_PORT: u16 = 8787;

/// Arguments of `serve`: the directory to map, the port, and whether to open
/// the browser.
pub struct ServeArgs {
    pub input: String,
    pub port: u16,
    pub open: bool,
}

/// The commands of the tool.
pub enum Commands {
    Serve(ServeArgs),
}

/// The parsed command line: a command, or none for the interactive screen.
pub struct Cli {
    pub command: Option<Commands>,
}

/// What the file system says of a path: whether it exists, and whether it is
/// a directory.
#[derive(Clone, Copy, Debug, PartialEq, Eq)]
pub struct PathProbe {
    pub exists: bool,
    pub is_dir: bool,
}

/// Why a path cannot be mapped, if it cannot (`path` as displayed).
pub open spec fn input_problem(path: Seq<char>, probe: PathProbe) -> Option<Seq<char>> {
    if !probe.exists {
        Some("o caminho informado nao existe: "@ + path)
    } else if !probe.is_dir {
        Some("o caminho informado nao e um diretorio: "@ + path)
    } else {
        None
    }
}

/// Checks that the input path is an existing directory (`path` as displayed).
pub fn validate_input_directory(path: &str, probe: PathProbe) -> (r: Result<(), String>)
    ensures
        r is Ok <==> input_problem(path@, probe) is None,
        r matches Err(msg) ==> input_problem(path@, probe) == Some(msg@),
{
    if !probe.exists {
        let mut msg = text::owned("o caminho informado nao existe: ");
        text::push_text(&mut msg, path);
        return Err(msg);
    }
    if !probe.is_dir {
        let mut msg = text::owned("o caminho informado nao e um diretorio: ");
        text::push_text(&mut msg, path);
        return Err(msg);
    }
    Ok(())
}

}
