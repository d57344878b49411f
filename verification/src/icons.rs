//! Where product icons are stored, and how an icon's content type is
//! recognised.
use vstd::prelude::*;
use crate::text::{chars_of, decimal_signed, push_decimal_signed, push_str, string_of};

verus! {

/// Stores each product's icon as `{id}.img` in a data directory.
#[derive(Clone)]
pub struct IconManager {
    data_directory: String,
}

/// A relative file name appended to a directory path (`Path::join`): no
/// separator is added to an empty directory or one that ends with a slash.
pub open spec fn join(dir: Seq<char>, name: Seq<char>) -> Seq<char> {
    if dir.len() == 0 || dir.last() == '/' {
        dir + name
    } else {
        dir + seq!['/'] + name
    }
}

impl IconManager {
    pub closed spec fn directory(&self) -> Seq<char> {
        self.data_directory@
    }

    pub fn new(data_directory: &str) -> (res: Self)
        ensures
            res.directory() == data_directory@,
    {
        Self { data_directory: string_of(data_directory) }
    }

    /// The file that holds the icon of product `id`.
    pub fn icon_path(&self, id: i64) -> (res: String)
        ensures
            res@ == join(self.directory(), decimal_signed(id as int) + ".img"@),
    {
        let mut path = string_of(self.data_directory.as_str());
        let cs = chars_of(self.data_directory.as_str());
        if cs.len() > 0 && cs[cs.len() - 1] != '/' {
            push_str(&mut path, "/");
            proof {
                reveal_strlit("/");
                assert("/"@ =~= seq!['/']);
            }
        }
        push_decimal_signed(&mut path, id);
        push_str(&mut path, ".img");
        path
    }
}

/// The MIME type that content sniffing finds for the data, if any.
pub uninterp spec fn sniffed_mime(data: Seq<u8>) -> Option<Seq<char>>;

/// Sniffs the type of the data from its leading bytes (`infer::get`, then
/// `Type::mime_type`): a function of the data alone; the table of known
/// signatures is not restated.
#[verifier::external_body]
fn sniff_mime(data: &[u8]) -> (res: Option<String>)
    ensures
        match res {
            Some(m) => sniffed_mime(data@) == Some(m@),
            None => sniffed_mime(data@) is None,
        },
{
    infer::get(data).map(|t| t.mime_type().to_string())
}

/// The content type an icon is served with: the sniffed type, or a
/// generic binary type when the data is not recognised.
pub fn icon_content_type(data: &[u8]) -> (res: String)
    ensures
        res@ == match sniffed_mime(data@) {
            Some(m) => m,
            None => "application/octet-stream"@,
        },
{
    content_type_or_default(sniff_mime(data))
}

/// The content type for a sniffed MIME type: the type itself, or a generic
/// binary type when nothing was recognised.
pub fn content_type_or_default(sniffed: Option<String>) -> (res: String)
    ensures
        res@ == match sniffed {
            Some(m) => m@,
            None => "application/octet-stream"@,
        },
{
    match sniffed {
        Some(m) => m,
        None => string_of("application/octet-stream"),
    }
}

} // verus!
