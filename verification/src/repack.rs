//! What the program calls its files, and how it calls the archiver.

use vstd::prelude::*;
use crate::text;

verus! {

/// A text in lower case.
pub uninterp spec fn lowercase(s: Seq<char>) -> Seq<char>;

/// A text in lower case, made by `str::to_lowercase`.
///
/// Believed of std: the result depends on the text alone.
#[verifier::external_body]
fn lowercase_text(text: &str) -> (r: String)
    ensures
        r@ == lowercase(text@),
{
    text.to_lowercase()
}

/// Whether a text ends with another.
pub open spec fn ends_with(s: Seq<char>, end: Seq<char>) -> bool {
    s.len() >= end.len() && s.skip(s.len() - end.len()) == end
}

/// The name under which a package is stored whose address is, in lower case, `address`.
pub open spec fn stored_name(address: Seq<char>) -> Seq<char> {
    if ends_with(address, ".appx"@) {
        "original_package.appx"@
    } else {
        "original_package.msixvc"@
    }
}

/// The name under which a package is stored whose address is, in lower case, `address`.
pub fn name_for_lowered(address: &str) -> (r: String)
    ensures
        r@ == stored_name(address@),
{
    proof {
        reveal_strlit(".appx");
    }
    let len: usize = address.unicode_len();
    if len >= 5 && address.substring_char(len - 5, len).to_owned() == ".appx".to_owned() {
        assert(address@.subrange(len - 5, len as int) =~= address@.skip(len - 5));
        "original_package.appx".to_owned()
    } else {
        assert(len >= 5 ==> address@.subrange(len - 5, len as int) =~= address@.skip(len - 5));
        "original_package.msixvc".to_owned()
    }
}

/// The name under which the package from `url` is stored.
pub fn package_name(url: &str) -> (r: String)
    ensures
        r@ == stored_name(lowercase(url@)),
{
    let lowered: String = lowercase_text(url);
    name_for_lowered(lowered.as_str())
}

/// Whether a path names a directory to be made: it is empty or ends with a separator.
pub open spec fn names_directory(path: Seq<char>) -> bool {
    path.len() == 0 || path.last() == '\\' || path.last() == '/'
}

/// Whether a path names a directory to be made.
pub fn is_directory_output_path(output_path: &str) -> (r: bool)
    ensures
        r == names_directory(output_path@),
{
    let len: usize = output_path.unicode_len();
    if len == 0 {
        return true;
    }
    let last: char = output_path.get_char(len - 1);
    last == '\\' || last == '/'
}

/// What the archiver is called with to unpack the file `package` to the directory `dir`.
pub fn unpack_arguments(package: &str, dir: &str) -> (r: Vec<String>)
    ensures
        text::texts(r@) == seq!["x"@, package@, "-o"@ + dir@],
{
    let mut arguments: Vec<String> = Vec::new();
    arguments.push("x".to_owned());
    arguments.push(package.to_owned());
    let mut target: String = "-o".to_owned();
    target.append(dir);
    arguments.push(target);
    assert(text::texts(arguments@) =~= seq!["x"@, package@, "-o"@ + dir@]);
    arguments
}

/// What the archiver is called with to pack the contents of the directory `dir` into `archive`,
/// in parts of `volume_size`.
pub fn archive_arguments(volume_size: &str, archive: &str, dir: &str) -> (r: Vec<String>)
    ensures
        text::texts(r@) == seq!["a"@, "-mx=3"@, "-v"@ + volume_size@, archive@, dir@ + "/*"@],
{
    let mut arguments: Vec<String> = Vec::new();
    arguments.push("a".to_owned());
    arguments.push("-mx=3".to_owned());
    let mut volume: String = "-v".to_owned();
    volume.append(volume_size);
    arguments.push(volume);
    arguments.push(archive.to_owned());
    let mut contents: String = dir.to_owned();
    contents.append("/*");
    arguments.push(contents);
    assert(text::texts(arguments@) =~= seq![
        "a"@,
        "-mx=3"@,
        "-v"@ + volume_size@,
        archive@,
        dir@ + "/*"@,
    ]);
    arguments
}

} // verus!
