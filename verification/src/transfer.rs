//! Commands of the file-transfer service built on the stop-and-wait
//! transport: `UPLOAD:{name}` and `DOWNLOAD:{name}`.
use vstd::prelude::*;
use crate::paths::{file_name, file_name_bounds};
use crate::text::{chars_of, occurs_at, push_str, starts_with, strip_all, strip_all_from, string_from_range, string_of};

verus! {

/// What a command asks for.
pub enum TransferCommand {
    /// Store an upload under the final component of the given name, when
    /// it has one.
    Upload { file_name: Option<String> },
    /// Send the file with the given name.
    Download { name: String },
    /// Not a command.
    Other,
}

/// The command a message holds: after `UPLOAD:` (all leading repetitions
/// removed) comes a name whose final component names the stored file;
/// after `DOWNLOAD:` (likewise) the name of the file to send.
pub fn parse_command(text: &str) -> (res: TransferCommand)
    ensures
        starts_with(text@, "UPLOAD:"@) ==> (res matches TransferCommand::Upload { file_name: f }
            && match f {
            Some(n) => file_name(strip_all(text@, "UPLOAD:"@)) == Some(n@),
            None => file_name(strip_all(text@, "UPLOAD:"@)) is None,
        }),
        !starts_with(text@, "UPLOAD:"@) && starts_with(text@, "DOWNLOAD:"@) ==> (res matches TransferCommand::Download { name }
            && name@ == strip_all(text@, "DOWNLOAD:"@)),
        !starts_with(text@, "UPLOAD:"@) && !starts_with(text@, "DOWNLOAD:"@) ==> res is Other,
{
    let cs = chars_of(text);
    let up = chars_of("UPLOAD:");
    let down = chars_of("DOWNLOAD:");
    assert(cs@.subrange(0, cs@.len() as int) =~= cs@);
    if occurs_at(cs.as_slice(), up.as_slice(), 0) {
        let start = strip_all_from(cs.as_slice(), up.as_slice(), 0);
        let rest = string_from_range(cs.as_slice(), start, cs.len());
        let rc = chars_of(rest.as_str());
        let name = match file_name_bounds(rc.as_slice()) {
            Some((b, e)) => Some(string_from_range(rc.as_slice(), b, e)),
            None => None,
        };
        TransferCommand::Upload { file_name: name }
    } else if occurs_at(cs.as_slice(), down.as_slice(), 0) {
        let start = strip_all_from(cs.as_slice(), down.as_slice(), 0);
        TransferCommand::Download { name: string_from_range(cs.as_slice(), start, cs.len()) }
    } else {
        TransferCommand::Other
    }
}

/// Where the service keeps a file: `data/{name}`.
pub fn storage_path(name: &str) -> (res: String)
    ensures
        res@ == "data/"@ + name@,
{
    let mut s = string_of("data/");
    push_str(&mut s, name);
    s
}

/// The command that uploads `filename`.
pub fn upload_command(filename: &str) -> (res: String)
    ensures
        res@ == "UPLOAD:"@ + filename@,
{
    let mut s = string_of("UPLOAD:");
    push_str(&mut s, filename);
    s
}

/// The command that downloads `filename`.
pub fn download_command(filename: &str) -> (res: String)
    ensures
        res@ == "DOWNLOAD:"@ + filename@,
{
    let mut s = string_of("DOWNLOAD:");
    push_str(&mut s, filename);
    s
}

/// The final component of a path, under which a download is saved.
pub fn local_file_name(path: &str) -> (res: Option<String>)
    ensures
        match res {
            Some(n) => file_name(path@) == Some(n@),
            None => file_name(path@) is None,
        },
{
    let cs = chars_of(path);
    match file_name_bounds(cs.as_slice()) {
        Some((b, e)) => Some(string_from_range(cs.as_slice(), b, e)),
        None => None,
    }
}

} // verus!
