use vstd::prelude::*;
use vstd::slice::{slice_subrange, slice_to_vec};
use crate::error::ArgumentError;
use crate::text::{bytes_of, find_byte, first_index_of, is_word, strip, stripped};

verus! {

/// The paths that the command line names.
#[derive(Clone, Debug)]
pub struct Arguments {
    /// The file that holds the cities.
    pub input: Option<Vec<u8>>,
    /// The file that the result is written to.
    pub output: Option<Vec<u8>>,
    /// The file that holds the settings.
    pub config: Option<Vec<u8>>,
}

/// The paths that the command line names, as sequences of bytes.
pub struct Paths {
    pub input: Option<Seq<u8>>,
    pub output: Option<Seq<u8>>,
    pub config: Option<Seq<u8>>,
}

/// The bytes of a path that is there.
pub open spec fn path_of(path: Option<Vec<u8>>) -> Option<Seq<u8>> {
    match path {
        Some(bytes) => Some(bytes@),
        None => None,
    }
}

impl View for Arguments {
    type V = Paths;

    open spec fn view(&self) -> Paths {
        Paths {
            input: path_of(self.input),
            output: path_of(self.output),
            config: path_of(self.config),
        }
    }
}

/// No path is named.
pub open spec fn no_paths() -> Paths {
    Paths { input: None, output: None, config: None }
}

/// The value of an argument without the quotes around it: first the double
/// quotes at both ends are dropped, then the single quotes.
pub open spec fn unquoted(raw: Seq<u8>) -> Seq<u8> {
    stripped(stripped(raw, 0x22), 0x27)
}

/// `paths` after one argument: the key stands before the first `=` and the
/// value after it.
pub open spec fn apply_argument(paths: Paths, argument: Seq<u8>) -> Result<Paths, ArgumentError> {
    let mark = first_index_of(argument, 0x3d);
    if 0 <= mark < argument.len() {
        let key = argument.take(mark);
        let value = unquoted(argument.skip(mark + 1));
        if key == bytes_of("--input"@) {
            Ok(Paths { input: Some(value), ..paths })
        } else if key == bytes_of("--output"@) {
            Ok(Paths { output: Some(value), ..paths })
        } else if key == bytes_of("--config"@) {
            Ok(Paths { config: Some(value), ..paths })
        } else {
            Err(ArgumentError::UnknownArgument)
        }
    } else {
        Err(ArgumentError::InvalidArgument)
    }
}

/// `paths` after each of `arguments`, from the first to the last.
pub open spec fn apply_arguments(paths: Paths, arguments: Seq<Vec<u8>>) -> Result<
    Paths,
    ArgumentError,
>
    decreases arguments.len(),
{
    if arguments.len() == 0 {
        Ok(paths)
    } else {
        match apply_arguments(paths, arguments.drop_last()) {
            Ok(before) => apply_argument(before, arguments.last()@),
            Err(e) => Err(e),
        }
    }
}

/// The value of an argument without the quotes around it.
pub fn unquote(raw: &[u8]) -> (value: Vec<u8>)
    ensures
        value@ == unquoted(raw@),
{
    slice_to_vec(strip(strip(raw, 0x22), 0x27))
}

/// `arguments` after one argument of the command line.
pub fn read_argument(arguments: Arguments, argument: &[u8]) -> (r: Result<Arguments, ArgumentError>)
    ensures
        match apply_argument(arguments@, argument@) {
            Ok(paths) => r is Ok && r->Ok_0@ == paths,
            Err(e) => r is Err && r->Err_0 == e,
        },
{
    proof {
        reveal_strlit("--input");
        reveal_strlit("--output");
        reveal_strlit("--config");
    }
    let mark: usize = find_byte(argument, 0x3d);
    if mark >= argument.len() {
        return Err(ArgumentError::InvalidArgument);
    }
    let key: &[u8] = slice_subrange(argument, 0, mark);
    assert(key@ =~= argument@.take(mark as int));
    let raw: &[u8] = slice_subrange(argument, mark + 1, argument.len());
    assert(raw@ =~= argument@.skip(mark + 1));
    let mut next: Arguments = arguments;
    if is_word(key, "--input") {
        next.input = Some(unquote(raw));
    } else if is_word(key, "--output") {
        next.output = Some(unquote(raw));
    } else if is_word(key, "--config") {
        next.config = Some(unquote(raw));
    } else {
        return Err(ArgumentError::UnknownArgument);
    }
    Ok(next)
}

/// The paths that the arguments of the command line name. Each argument is
/// `--input=`, `--output=` or `--config=` and a path, which may stand in
/// quotes; of two arguments with one key the later counts.
///
/// Fails at the first argument that holds no `=`, or that has another key.
pub fn get_arguments(command_line: &Vec<Vec<u8>>) -> (r: Result<Arguments, ArgumentError>)
    ensures
        match apply_arguments(no_paths(), command_line@) {
            Ok(paths) => r is Ok && r->Ok_0@ == paths,
            Err(e) => r is Err && r->Err_0 == e,
        },
{
    let mut arguments = Arguments { input: None, output: None, config: None };
    let mut k: usize = 0;
    assert(command_line@.take(0) =~= Seq::<Vec<u8>>::empty());
    while k < command_line.len()
        invariant
            k <= command_line.len(),
            apply_arguments(no_paths(), command_line@.take(k as int)) == Ok::<Paths, ArgumentError>(
                arguments@,
            ),
        decreases command_line.len() - k,
    {
        proof {
            let read = command_line@.take(k + 1);
            assert(read.drop_last() =~= command_line@.take(k as int));
            assert(read.last() == command_line@[k as int]);
        }
        match read_argument(arguments, command_line[k].as_slice()) {
            Ok(next) => {
                arguments = next;
            },
            Err(e) => {
                proof {
                    lemma_error_stays(no_paths(), command_line@, k + 1);
                }
                return Err(e);
            },
        }
        k += 1;
    }
    assert(command_line@.take(command_line.len() as int) =~= command_line@);
    Ok(arguments)
}

/// Once an argument has failed, the arguments after it change nothing.
pub proof fn lemma_error_stays(paths: Paths, arguments: Seq<Vec<u8>>, k: int)
    requires
        0 <= k <= arguments.len(),
        apply_arguments(paths, arguments.take(k)) is Err,
    ensures
        apply_arguments(paths, arguments) == apply_arguments(paths, arguments.take(k)),
    decreases arguments.len() - k,
{
    if k < arguments.len() {
        assert(arguments.take(k + 1).drop_last() =~= arguments.take(k));
        lemma_error_stays(paths, arguments, k + 1);
    } else {
        assert(arguments.take(k) =~= arguments);
    }
}

} // verus!
