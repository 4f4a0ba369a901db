//! The rules a selection of files and folders must pass before it can be offered.
use crate::text::{byte_len, chars_of, equal_text, lowercase, lowercase_text, utf8_len};
use vstd::prelude::*;

verus! {

/// At most this many files or folders in one offer.
pub const MAX_ITEMS: usize = 200;

/// At most this many entries (files and folders) under one selected item.
pub const MAX_ENTRIES: usize = 100000;

/// The longest portable file name, in bytes.
pub const MAX_NAME_BYTES: usize = 255;

pub const NOT_ABSOLUTE: &'static str = "File paths must be absolute.";
pub const CHOOSE_COUNT: &'static str = "Choose between 1 and 200 files or folders.";
pub const NOT_REGULAR: &'static str = "Only regular files and folders can be sent.";
pub const UNPORTABLE_NAME: &'static str = "This filename is not supported across platforms.";
pub const SAME_NAME: &'static str = "Selected items have the same name. Put them in different folders before sending.";
pub const TOO_MANY_ENTRIES: &'static str = "This selection contains more than 100,000 entries. Archive it before sending.";
pub const SYMLINK: &'static str = "The selected folder contains a symbolic link. Remove it or send the target explicitly.";
pub const TOO_LARGE: &'static str = "Selected files are too large.";

/// The number of selected items is acceptable.
pub fn check_selection(count: usize) -> (r: Result<(), String>)
    ensures
        r is Ok <==> 1 <= count <= MAX_ITEMS,
        r matches Err(e) ==> e@ == CHOOSE_COUNT@,
{
    if count == 0 || count > MAX_ITEMS {
        return Err(String::from_str(CHOOSE_COUNT));
    }
    Ok(())
}

/// A path that could be absolute on some platform: it starts with `/` or `\\`, or holds a
/// `:` (a drive or verbatim prefix).
pub open spec fn absolute_shape(path: Seq<char>) -> bool {
    path.len() > 0 && (path[0] == '/' || path[0] == '\\' || path.contains(':'))
}

/// `std::path::Path::is_absolute` for the text `path`. Which paths count depends on the
/// platform (a leading `/` on Unix; a drive, UNC or verbatim prefix and a root on Windows),
/// so only what holds on each of these platforms is stated: an absolute path has
/// `absolute_shape`.
#[verifier::external_body]
fn is_absolute_path(path: &str) -> (r: bool)
    ensures
        r ==> absolute_shape(path@),
{
    std::path::Path::new(path).is_absolute()
}

/// A selected path must be absolute, as this platform reads paths. A path that is absolute
/// on no platform, such as `relative.txt`, is always refused.
pub fn check_absolute(path: &str) -> (r: Result<(), String>)
    ensures
        r matches Err(e) ==> e@ == NOT_ABSOLUTE@,
        !absolute_shape(path@) ==> (r matches Err(e) && e@ == NOT_ABSOLUTE@),
{
    if !is_absolute_path(path) {
        return Err(String::from_str(NOT_ABSOLUTE));
    }
    Ok(())
}

/// Only regular files and folders can be sent.
pub fn check_kind(is_dir: bool, is_file: bool) -> (r: Result<(), String>)
    ensures
        r is Ok <==> (is_dir || is_file),
        r matches Err(e) ==> e@ == NOT_REGULAR@,
{
    if !is_dir && !is_file {
        return Err(String::from_str(NOT_REGULAR));
    }
    Ok(())
}

/// A name that every platform can store: no slash, backslash or NUL, at most 255 bytes.
pub open spec fn portable_name(name: Seq<char>) -> bool {
    &&& !name.contains('/')
    &&& !name.contains('\\')
    &&& !name.contains('\0')
    &&& utf8_len(name) <= MAX_NAME_BYTES
}

fn is_portable(name: &str) -> (r: bool)
    ensures
        r == portable_name(name@),
{
    let cs = chars_of(name);
    let mut i: usize = 0;
    while i < cs.len()
        invariant
            cs@ == name@,
            i <= cs.len(),
            forall|j: int| 0 <= j < i ==> cs@[j] != '/' && cs@[j] != '\\' && cs@[j] != '\0',
        decreases cs.len() - i,
    {
        let c = cs[i];
        if c == '/' || c == '\\' || c == '\0' {
            assert(name@[i as int] == c);
            return false;
        }
        i = i + 1;
    }
    byte_len(name) <= MAX_NAME_BYTES
}

/// Whether a lower-cased name is already taken.
pub open spec fn taken(names: Seq<String>, lowered: Seq<char>) -> bool {
    exists|i: int| 0 <= i < names.len() && #[trigger] names[i]@ == lowered
}

/// No two admitted names are the same.
pub open spec fn all_different(names: Seq<String>) -> bool {
    forall|i: int, j: int| 0 <= i < j < names.len() ==> names[i]@ != names[j]@
}

/// The top-level names of a selection so far, lower-cased: two items whose names differ
/// only in case would collide on a case-insensitive file system.
pub struct Selection {
    pub names: Vec<String>,
}

impl Selection {
    /// A selection with no items yet.
    pub fn new() -> (r: Selection)
        ensures
            r.names@.len() == 0,
    {
        Selection { names: Vec::new() }
    }

    /// Admits the next item's name: it must be portable and differ, ignoring case, from
    /// every name admitted before. A refused name leaves the selection as it was.
    pub fn admit_name(&mut self, name: &str) -> (r: Result<(), String>)
        ensures
            !portable_name(name@) ==> (r matches Err(e) && e@ == UNPORTABLE_NAME@),
            portable_name(name@) && taken(old(self).names@, lowercase_text(name@)) ==> (r matches Err(e)
                && e@ == SAME_NAME@),
            r is Err ==> final(self).names@ == old(self).names@,
            r is Ok <==> portable_name(name@) && !taken(old(self).names@, lowercase_text(name@)),
            r is Ok ==> final(self).names@.len() == old(self).names@.len() + 1
                && final(self).names@.drop_last() == old(self).names@
                && final(self).names@.last()@ == lowercase_text(name@),
            all_different(old(self).names@) ==> all_different(final(self).names@),
    {
        if !is_portable(name) {
            return Err(String::from_str(UNPORTABLE_NAME));
        }
        let lowered = lowercase(name);
        let mut i: usize = 0;
        while i < self.names.len()
            invariant
                i <= self.names.len(),
                lowered@ == lowercase_text(name@),
                portable_name(name@),
                forall|j: int| 0 <= j < i ==> self.names@[j]@ != lowered@,
            decreases self.names.len() - i,
        {
            if equal_text(self.names[i].as_str(), lowered.as_str()) {
                return Err(String::from_str(SAME_NAME));
            }
            i = i + 1;
        }
        self.names.push(lowered);
        assert(self.names@.drop_last() =~= old(self).names@);
        Ok(())
    }
}

/// The checks on an entry met while walking a selected item, before its metadata is read:
/// first the limit on entries, then symbolic links. `count` is the entry's place in the walk,
/// the selected item itself being place 0, so it is the number of entries below the item
/// counted so far; more than `MAX_ENTRIES` of them are refused.
pub fn check_entry(count: usize, is_symlink: bool) -> (r: Result<(), String>)
    ensures
        count > MAX_ENTRIES ==> (r matches Err(e) && e@ == TOO_MANY_ENTRIES@),
        count <= MAX_ENTRIES && is_symlink ==> (r matches Err(e) && e@ == SYMLINK@),
        r is Ok <==> count <= MAX_ENTRIES && !is_symlink,
{
    if count > MAX_ENTRIES {
        return Err(String::from_str(TOO_MANY_ENTRIES));
    }
    if is_symlink {
        return Err(String::from_str(SYMLINK));
    }
    Ok(())
}

/// The total size after an entry: files count, folders do not; a sum past `u64::MAX` is refused.
pub fn add_size(size: u64, is_file: bool, len: u64) -> (r: Result<u64, String>)
    ensures
        !is_file ==> r == Ok::<u64, String>(size),
        is_file && size + len <= u64::MAX ==> r == Ok::<u64, String>((size + len) as u64),
        is_file && size + len > u64::MAX ==> (r matches Err(e) && e@ == TOO_LARGE@),
{
    if !is_file {
        return Ok(size);
    }
    match size.checked_add(len) {
        Some(total) => Ok(total),
        None => Err(String::from_str(TOO_LARGE)),
    }
}

} // verus!
