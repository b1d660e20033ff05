//! The credentials the daemon is started with.

use vstd::prelude::*;

use crate::text;

verus! {

/// The variable that names the directory the credentials are in.
pub const DIRECTORY: &'static str = "CREDENTIALS_DIRECTORY";

pub open spec fn file_char(c: char) -> char {
    if c == '_' {
        '-'
    } else {
        text::lowered(c)
    }
}

/// A variable's name as a file name: in lower case, with hyphens.
pub open spec fn file_name_of(variable: Seq<char>) -> Seq<char> {
    variable.map_values(|c: char| file_char(c))
}

/// `LoadCredential=forgejo-runner-token:...` for `FORGEJO_RUNNER_TOKEN`.
pub fn credential_file_name(variable: &str) -> (res: String)
    ensures
        res@ == file_name_of(variable@),
{
    let chars = text::chars_of(variable);
    let mut name = String::new();
    let mut i: usize = 0;
    while i < chars.len()
        invariant
            i <= chars@.len(),
            chars@ == variable@,
            name@ == file_name_of(variable@).take(i as int),
        decreases chars@.len() - i,
    {
        let c = chars[i];
        proof {
            let all = file_name_of(variable@);
            assert(all.take(i + 1) =~= all.take(i as int).push(all[i as int]));
        }
        if c == '_' {
            name.push('-');
        } else {
            name.push(text::lower(c));
        }
        i += 1;
    }
    proof {
        assert(file_name_of(variable@).take(i as int) =~= file_name_of(variable@));
    }
    name
}

/// Where a credential is read from.
#[derive(Debug, PartialEq, Eq)]
pub enum Source {
    /// The file of this name in the directory of the credentials.
    File(String),
    /// The variable itself.
    Variable,
}

/// Where a variable's credential is read from: a directory that was named wins, and
/// the variable is then left alone. An empty name names none.
pub fn source(directory: Option<&str>, variable: &str) -> (res: Source)
    ensures
        match res {
            Source::File(name) => directory is Some && directory->0@.len() > 0 && name@
                == file_name_of(variable@),
            Source::Variable => directory is Some ==> directory->0@.len() == 0,
        },
{
    match directory {
        Some(directory) => {
            if directory.is_empty() {
                Source::Variable
            } else {
                Source::File(credential_file_name(variable))
            }
        },
        None => Source::Variable,
    }
}

/// The credential, which has to be something; `source` is where it came from.
pub fn non_empty(value: &str, source: &str) -> (res: Result<String, String>)
    ensures
        match res {
            Ok(kept) => value@.len() > 0 && kept@ == value@,
            Err(why) => value@.len() == 0 && why@ == source@ + " is empty"@,
        },
{
    if value.is_empty() {
        Err(source.to_owned().concat(" is empty"))
    } else {
        Ok(value.to_owned())
    }
}

/// The credential that a file holds: everything up to the newlines at its end.
pub fn from_file(content: &str, path: &str) -> (res: Result<String, String>)
    ensures
        ({
            let value = text::trimmed_end(content@, '\n');
            match res {
                Ok(kept) => value.len() > 0 && kept@ == value,
                Err(why) => value.len() == 0 && why@ == path@ + " is empty"@,
            }
        }),
{
    non_empty(text::trim_end(content, '\n'), path)
}

/// What is told of a credential file that could not be read.
pub fn unreadable(path: &str, variable: &str) -> (res: String)
    ensures
        res@ == "reading credential "@ + path@ + ": is LoadCredential="@ + file_name_of(variable@)
            + " missing from the unit?"@,
{
    let name = credential_file_name(variable);
    "reading credential ".to_owned().concat(path).concat(": is LoadCredential=").concat(
        name.as_str(),
    ).concat(" missing from the unit?")
}

/// What is told of a variable without a value.
pub fn unset(variable: &str) -> (res: String)
    ensures
        res@ == variable@ + " is not set"@,
{
    variable.to_owned().concat(" is not set")
}

/// The file of a variable is named like it, letter by letter: a capital becomes the
/// small letter, an underscore a hyphen, and everything else stays.
pub proof fn law_a_file_is_named_like_its_variable(variable: &str, name: String)
    requires
        call_ensures(credential_file_name, (variable,), name),
    ensures
        name@.len() == variable@.len(),
        forall|i: int|
            0 <= i < variable@.len() ==> {
                let c = #[trigger] variable@[i];
                if c == '_' {
                    name@[i] == '-'
                } else if 'A' <= c && c <= 'Z' {
                    name@[i] as int == c as int + 32
                } else {
                    name@[i] == c
                }
            },
{
}

/// A credential is what its file holds, but for the newlines at the end; if nothing else
/// is there, it is refused by the path of the file.
pub proof fn law_a_file_holds_its_credential(
    content: &str,
    path: &str,
    res: Result<String, String>,
)
    requires
        call_ensures(from_file, (content, path), res),
    ensures
        match res {
            Ok(kept) => {
                &&& 0 < kept@.len() <= content@.len()
                &&& kept@ == content@.take(kept@.len() as int)
                &&& kept@.last() != '\n'
                &&& forall|i: int| kept@.len() <= i < content@.len() ==> #[trigger] content@[i]
                    == '\n'
            },
            Err(why) => {
                &&& why@ == path@ + " is empty"@
                &&& forall|i: int| 0 <= i < content@.len() ==> #[trigger] content@[i] == '\n'
            },
        },
{
    text::lemma_trimmed_end(content@, '\n');
}

/// A directory that is named is where a credential is read from, by the name of its
/// file; otherwise the variable itself is read.
pub proof fn law_a_directory_comes_first(
    directory: Option<&str>,
    variable: &str,
    name: String,
    res: Source,
)
    requires
        call_ensures(source, (directory, variable), res),
        call_ensures(credential_file_name, (variable,), name),
    ensures
        (directory is Some && directory->0@.len() > 0) <==> res is File,
        res matches Source::File(file) ==> file@ == name@,
{
}

} // verus!
