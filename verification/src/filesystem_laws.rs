//! How entries from a filesystem are named, and what their data is.

use crate::builder::Metadata;
use crate::filesystem_entry::{
    clean_root, entry_name, sanitized, DirectoryWalk, EntryType, FilesystemEntry,
};
use crate::laws::{law_clean_names_stay, law_names_are_kept, law_trimming_keeps_the_rest};
use std::path::PathBuf;
use vstd::prelude::*;

verus! {

/// The data of a file has the size that the filesystem tells, that of a link is its target, and
/// directories have none.
pub proof fn law_data_is_as_told(
    entry: FilesystemEntry,
    path: PathBuf,
    metadata: Metadata,
    link_target: Vec<u8>,
)
    requires
        entry.made_of(path, metadata, link_target),
    ensures
        entry.path == path,
        entry.entry_type is Directory <==> metadata.is_dir,
        entry.entry_type is Symlink <==> !metadata.is_dir && metadata.is_symlink,
        metadata.is_dir ==> entry.spec_size() == 0,
        !metadata.is_dir && !metadata.is_symlink ==> entry.spec_size() == metadata.len,
        !metadata.is_dir && metadata.is_symlink ==> entry.spec_size() == link_target@.len(),
        entry.entry_type matches EntryType::Symlink { target_bytes } ==> target_bytes
            == link_target,
{
}

/// The name of an entry begins with that of the root directory, if there is one. The path below it
/// follows, and a slash ends the name exactly if it is that of a directory.
pub proof fn law_entry_names_are_paths(
    root_name: Option<Seq<char>>,
    relative: Seq<char>,
    is_directory: bool,
)
    requires
        relative.len() > 0,
        relative.last() != '/',
    ensures
        ({
            let name = entry_name(root_name, relative, is_directory);
            let start = match root_name {
                Some(root) => root.len() as int,
                None => 0,
            };
            &&& root_name matches Some(root) ==> name.take(start) == root
            &&& start + relative.len() <= name.len() <= start + relative.len() + 1
            &&& name.subrange(start, start + relative.len()) == relative
            &&& name.last() == '/' <==> is_directory
        }),
{
    let name = entry_name(root_name, relative, is_directory);
    let start = match root_name {
        Some(root) => root.len() as int,
        None => 0,
    };
    if let Some(root) = root_name {
        assert(name.take(start) =~= root);
    }
    assert(name.subrange(start, start + relative.len()) =~= relative);
    if !is_directory {
        assert(name.last() == relative.last());
    }
}

/// Different paths below a root directory have different names, and so have a file and a directory.
pub proof fn law_entry_names_differ(
    root_name: Option<Seq<char>>,
    first: Seq<char>,
    first_directory: bool,
    second: Seq<char>,
    second_directory: bool,
)
    requires
        first.len() > 0,
        first.last() != '/',
        second.len() > 0,
        second.last() != '/',
        entry_name(root_name, first, first_directory) == entry_name(
            root_name,
            second,
            second_directory,
        ),
    ensures
        first == second,
        first_directory == second_directory,
{
    law_entry_names_are_paths(root_name, first, first_directory);
    law_entry_names_are_paths(root_name, second, second_directory);
    let name = entry_name(root_name, first, first_directory);
    let other = entry_name(root_name, second, second_directory);
    assert(name.last() == other.last());
    assert(first_directory == second_directory);
    assert(first.len() == second.len());
    assert(first =~= second);
}

/// The name of a root directory is the one that was given, but for the slashes around it, and ends
/// with one slash.
pub proof fn law_root_names_are_kept(root_name: Seq<char>)
    ensures
        ({
            let name = clean_root(root_name);
            let kept = name.drop_last();
            &&& name.len() > 0
            &&& name.last() == '/'
            &&& kept.len() > 0 ==> kept[0] != '/' && kept.last() != '/'
            &&& exists|from: int|
                {
                    &&& 0 <= from
                    &&& from + kept.len() <= root_name.len()
                    &&& #[trigger] root_name.subrange(from, from + kept.len()) == kept
                    &&& forall|i: int|
                        0 <= i < root_name.len() && !(from <= i < from + kept.len())
                            ==> #[trigger] root_name[i] == '/'
                }
        }),
{
    law_trimming_keeps_the_rest(root_name, '/');
    let front = crate::filesystem_entry::trim_end(root_name, '/');
    law_trimming_keeps_the_rest(front, '/');
    let kept = crate::filesystem_entry::trim_start(front, '/');
    assert(clean_root(root_name).drop_last() =~= kept);
    let from = front.len() - kept.len();
    assert(root_name.subrange(from, from + kept.len()) =~= kept);
    assert forall|i: int|
        0 <= i < root_name.len() && !(from <= i < from + kept.len()) implies #[trigger] root_name[i]
        == '/' by {
        if i < from {
            assert(front[i] == '/');
            assert(front[i] == root_name[i]);
        }
    }
    if kept.len() > 0 {
        assert(kept.last() == front.last());
    }
}

/// A name from a filesystem is stored as it was given, but for the slashes at its end: a directory
/// has one, and everything else none.
pub proof fn law_sanitized_names_are_kept(name: Seq<char>, is_directory: bool)
    ensures
        ({
            let stored = sanitized(name, is_directory);
            let kept = if is_directory {
                stored.len() - 1
            } else {
                stored.len() as int
            };
            &&& 0 <= kept <= name.len()
            &&& stored.take(kept) == name.take(kept)
            &&& forall|i: int| kept <= i < name.len() ==> #[trigger] name[i] == '/'
            &&& is_directory ==> stored.last() == '/'
            &&& kept > 0 ==> stored[kept - 1] != '/'
        }),
        sanitized(sanitized(name, is_directory), is_directory) == sanitized(name, is_directory),
{
    law_names_are_kept(name, is_directory);
    law_clean_names_stay(name, is_directory);
}

/// A directory that is found is the next one to be listed, and nothing else changes by that.
/// Everything else that is found is not listed.
pub proof fn law_found_directories_are_listed<P>(
    first: DirectoryWalk<P>,
    path: P,
    is_directory: bool,
    second: DirectoryWalk<P>,
    next: Option<P>,
    third: DirectoryWalk<P>,
)
    requires
        second.took_note(first, path, is_directory),
        third.went_on(second, next),
    ensures
        is_directory ==> next == Some(path) && third.pending() == first.pending(),
        !is_directory ==> third.went_on(first, next),
        next is None <==> second.pending().len() == 0,
        third.spec_root_name() == first.spec_root_name(),
{
    if is_directory {
        assert(next is Some);
        let taken = next->0;
        assert(third.pending().push(taken).last() == first.pending().push(path).last());
        assert(third.pending().push(taken).drop_last() =~= third.pending());
        assert(first.pending().push(path).drop_last() =~= first.pending());
    }
}

} // verus!
