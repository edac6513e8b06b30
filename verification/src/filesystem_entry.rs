//! Entries that come from a filesystem.

use crate::builder::{
    has_name, too_long, AddEntryError, Builder, BuilderEntry, EntryMetadata, Metadata,
};
use crate::entry_data::EntryData;
use std::path::PathBuf;
use vstd::prelude::*;
use vstd::string::StringExecFns;

verus! {

/// `std::path::PathBuf` is handed through to whoever opens the file; nothing is known of it.
#[verifier::external_type_specification]
#[verifier::external_body]
pub struct ExPathBuf(std::path::PathBuf);

/// What a filesystem object is, as far as its data is concerned.
#[derive(Clone, Debug)]
pub enum EntryType {
    File { size: u64 },
    Directory,
    Symlink { target_bytes: Vec<u8> },
}

/// A filesystem object -- file, directory or symlink -- that is to be an entry.
#[derive(Debug)]
pub struct FilesystemEntry {
    pub path: PathBuf,
    pub entry_type: EntryType,
}

/// Where the data of a filesystem object is read from.
pub enum ReaderSource<'a> {
    /// From the file at this path.
    File(&'a PathBuf),
    /// From these bytes.
    Symlink(&'a Vec<u8>),
}

impl FilesystemEntry {
    /// Whether this is the filesystem object at `path` that `metadata` speaks of, with this target
    /// if it is a link.
    pub open spec fn made_of(&self, path: PathBuf, metadata: Metadata, link_target: Vec<u8>) -> bool {
        &&& self.path == path
        &&& self.entry_type == (if metadata.is_dir {
            EntryType::Directory
        } else if metadata.is_symlink {
            EntryType::Symlink { target_bytes: link_target }
        } else {
            EntryType::File { size: metadata.len }
        })
    }

    /// The size of the data.
    pub open spec fn spec_size(&self) -> nat {
        match self.entry_type {
            EntryType::File { size } => size as nat,
            EntryType::Directory => 0,
            EntryType::Symlink { target_bytes } => target_bytes@.len(),
        }
    }

    /// Whether [`FilesystemEntry::with_metadata()`] will use the target of a link.
    pub fn needs_link_target(metadata: &Metadata) -> (needed: bool)
        ensures
            needed == (!metadata.is_dir && metadata.is_symlink),
    {
        !metadata.is_dir && metadata.is_symlink
    }

    /// Constructs a new `FilesystemEntry`, with entry metadata given from outside.
    /// The target of a link is what its data consists of.
    pub fn with_metadata(path: PathBuf, metadata: &Metadata, link_target: Vec<u8>) -> (entry:
        FilesystemEntry)
        ensures
            entry.path == path,
            entry.made_of(path, *metadata, link_target),
            match entry.entry_type {
                EntryType::Directory => metadata.is_dir,
                EntryType::Symlink { target_bytes } => !metadata.is_dir && metadata.is_symlink
                    && target_bytes == link_target,
                EntryType::File { size } => !metadata.is_dir && !metadata.is_symlink && size
                    == metadata.len,
            },
    {
        let entry_type = if metadata.is_dir {
            EntryType::Directory
        } else if metadata.is_symlink {
            EntryType::Symlink { target_bytes: link_target }
        } else {
            EntryType::File { size: metadata.len }
        };
        FilesystemEntry { path, entry_type }
    }

    /// Where the data is read from. Directories have no data, and are not to be opened.
    pub fn reader_source(&self) -> (source: ReaderSource<'_>)
        requires
            self.entry_type !is Directory,
        ensures
            match source {
                ReaderSource::File(path) => self.entry_type is File && *path == self.path,
                ReaderSource::Symlink(bytes) => self.entry_type == (EntryType::Symlink {
                    target_bytes: *bytes,
                }),
            },
    {
        match &self.entry_type {
            EntryType::Symlink { target_bytes } => ReaderSource::Symlink(target_bytes),
            _ => ReaderSource::File(&self.path),
        }
    }

    /// The size of the data.
    pub fn size(&self) -> (size: u64)
        ensures
            size == (match self.entry_type {
                EntryType::File { size } => size as nat,
                EntryType::Directory => 0,
                EntryType::Symlink { target_bytes } => target_bytes@.len(),
            }),
            size == self.spec_size(),
    {
        match &self.entry_type {
            EntryType::File { size } => *size,
            EntryType::Directory => 0,
            EntryType::Symlink { target_bytes } => target_bytes.len() as u64,
        }
    }

    /// Whether this is a directory.
    pub fn is_directory(&self) -> (directory: bool)
        ensures
            directory == (self.entry_type is Directory),
    {
        match &self.entry_type {
            EntryType::Directory => true,
            _ => false,
        }
    }
}

/// `text` without the `c` that it ends with.
pub open spec fn trim_end(text: Seq<char>, c: char) -> Seq<char>
    decreases text.len(),
{
    if text.len() > 0 && text.last() == c {
        trim_end(text.drop_last(), c)
    } else {
        text
    }
}

/// `text` without the `c` that it begins with.
pub open spec fn trim_start(text: Seq<char>, c: char) -> Seq<char>
    decreases text.len(),
{
    if text.len() > 0 && text[0] == c {
        trim_start(text.skip(1), c)
    } else {
        text
    }
}

/// Removes trailing slashes by `str::trim_end_matches`, which removes all of them.
#[verifier::external_body]
fn trim_end_slashes(text: &str) -> (trimmed: &str)
    ensures
        trimmed@ == trim_end(text@, '/'),
{
    text.trim_end_matches('/')
}

/// Removes leading and trailing slashes by `str::trim_matches`, which removes all of them.
#[verifier::external_body]
fn trim_slashes(text: &str) -> (trimmed: &str)
    ensures
        trimmed@ == trim_start(trim_end(text@, '/'), '/'),
{
    text.trim_matches('/')
}

/// A slash for directories.
pub open spec fn trailing_slash(is_directory: bool) -> Seq<char> {
    if is_directory {
        seq!['/']
    } else {
        Seq::empty()
    }
}

/// A name without slashes at its end, and a slash behind it for directories.
pub open spec fn sanitized(name: Seq<char>, is_directory: bool) -> Seq<char> {
    trim_end(name, '/') + trailing_slash(is_directory)
}

/// The name of an entry: that of the root directory, if there is one, the path below it, and a slash
/// for directories.
pub open spec fn entry_name(
    root_name: Option<Seq<char>>,
    relative: Seq<char>,
    is_directory: bool,
) -> Seq<char> {
    (match root_name {
        Some(root) => root,
        None => Seq::empty(),
    }) + relative + trailing_slash(is_directory)
}

/// The name of a root directory, without slashes around it, and a slash behind it.
pub open spec fn clean_root(root_name: Seq<char>) -> Seq<char> {
    trim_start(trim_end(root_name, '/'), '/').push('/')
}

/// Modifies the `entry_name` to have no trailing slashes for files and one trailing slash for directories
pub fn sanitize_entry_name_slashes(entry_name: String, is_directory: bool) -> (name: String)
    ensures
        name@ == trim_end(entry_name@, '/') + trailing_slash(is_directory),
        name@ == sanitized(entry_name@, is_directory),
{
    let mut name = String::from_str(trim_end_slashes(entry_name.as_str()));
    if is_directory {
        proof {
            reveal_strlit("/");
            assert("/"@ =~= seq!['/']);
        }
        name.append("/");
    }
    name
}

/// Modifies the name of a root directory to have no leading slashes and one trailing slash.
pub fn clean_root_name(root_name: &str) -> (name: String)
    ensures
        name@ == trim_start(trim_end(root_name@, '/'), '/').push('/'),
        name@ == clean_root(root_name@),
{
    let mut name = String::from_str(trim_slashes(root_name));
    proof {
        reveal_strlit("/");
        assert("/"@ =~= seq!['/']);
    }
    name.append("/");
    name
}

/// Creates a string suitable as ZIP file entry name from a path.
///
/// `relative` is the path below the root directory, without a trailing slash.
/// `root_name` is put before it, and has to end with a slash.
/// If `is_directory` is true, then the generated name will end with a slash.
pub fn make_entry_name(relative: &str, root_name: Option<&str>, is_directory: bool) -> (name:
    String)
    requires
        relative@.len() > 0,
        relative@.last() != '/',
        root_name matches Some(root) ==> root@.len() > 0 && root@.last() == '/',
    ensures
        name@ == (match root_name {
            Some(root) => root@,
            None => Seq::empty(),
        }) + relative@ + trailing_slash(is_directory),
        name@ == entry_name(
            match root_name {
                Some(root) => Some(root@),
                None => None,
            },
            relative@,
            is_directory,
        ),
{
    let mut name = String::new();
    if let Some(root) = root_name {
        name.append(root);
    }
    name.append(relative);
    if is_directory {
        proof {
            reveal_strlit("/");
            assert("/"@ =~= seq!['/']);
        }
        name.append("/");
    }
    name
}

/// Walks through a directory and everything below it.
///
/// Which directories are still to be listed, and how what is found in them is named.
pub struct DirectoryWalk<P> {
    stack: Vec<P>,
    root_name: Option<String>,
}

impl<P> DirectoryWalk<P> {
    /// The directories that are still to be listed, the next one last.
    pub closed spec fn pending(&self) -> Seq<P> {
        self.stack@
    }

    /// What is put before all names.
    pub closed spec fn spec_root_name(&self) -> Option<Seq<char>> {
        match self.root_name {
            Some(name) => Some(name@),
            None => None,
        }
    }

    /// Whether this is `before`, with something that was found: a directory is listed next.
    pub open spec fn took_note(&self, before: DirectoryWalk<P>, path: P, is_directory: bool) -> bool {
        &&& self.spec_root_name() == before.spec_root_name()
        &&& self.pending() == (if is_directory {
            before.pending().push(path)
        } else {
            before.pending()
        })
    }

    /// Whether this is `before`, without the directory that is to be listed next, if there is one.
    pub open spec fn went_on(&self, before: DirectoryWalk<P>, directory: Option<P>) -> bool {
        &&& self.spec_root_name() == before.spec_root_name()
        &&& match directory {
            Some(next) => before.pending() == self.pending().push(next),
            None => before.pending().len() == 0 && self.pending().len() == 0,
        }
    }

    /// What is put before names ends with a slash.
    pub open spec fn wf(&self) -> bool {
        self.spec_root_name() matches Some(root) ==> root.len() > 0 && root.last() == '/'
    }

    /// Begins with `directory`.
    ///
    /// If `root_name` is Some, it is used as a prefix for all entry names, separated by a slash.
    pub fn new(directory: P, root_name: Option<&str>) -> (walk: DirectoryWalk<P>)
        ensures
            walk.wf(),
            walk.pending() == seq![directory],
            walk.spec_root_name() == (match root_name {
                Some(root) => Some(trim_start(trim_end(root@, '/'), '/').push('/')),
                None => None,
            }),
            root_name matches Some(root) ==> walk.spec_root_name() == Some(clean_root(root@)),
    {
        let mut stack: Vec<P> = Vec::new();
        stack.push(directory);
        let root_name: Option<String> = match root_name {
            Some(root) => Some(clean_root_name(root)),
            None => None,
        };
        DirectoryWalk { stack, root_name }
    }

    /// The directory to list next, if one is left.
    pub fn next_directory(&mut self) -> (directory: Option<P>)
        ensures
            final(self).spec_root_name() == old(self).spec_root_name(),
            old(self).wf() ==> final(self).wf(),
            final(self).went_on(*old(self), directory),
            if old(self).pending().len() == 0 {
                directory is None && final(self).pending() == old(self).pending()
            } else {
                directory == Some(old(self).pending().last()) && final(self).pending() == old(
                    self,
                ).pending().drop_last()
            },
    {
        let directory = self.stack.pop();
        assert(directory matches Some(next) ==> old(self).pending() =~= self.pending().push(next));
        directory
    }

    /// Takes note of something that was found, and says how its entry is named.
    ///
    /// `relative` is the path below the root directory, without a trailing slash. Directories
    /// will be listed, too.
    pub fn found(&mut self, path: P, relative: &str, is_directory: bool) -> (name: String)
        requires
            old(self).wf(),
            relative@.len() > 0,
            relative@.last() != '/',
        ensures
            final(self).wf(),
            final(self).spec_root_name() == old(self).spec_root_name(),
            final(self).pending() == (if is_directory {
                old(self).pending().push(path)
            } else {
                old(self).pending()
            }),
            name@ == (match old(self).spec_root_name() {
                Some(root) => root,
                None => Seq::empty(),
            }) + relative@ + trailing_slash(is_directory),
            name@ == entry_name(old(self).spec_root_name(), relative@, is_directory),
            final(self).took_note(*old(self), path, is_directory),
    {
        if is_directory {
            self.stack.push(path);
        }
        let root: Option<&str> = match &self.root_name {
            Some(root) => Some(root.as_str()),
            None => None,
        };
        make_entry_name(relative, root, is_directory)
    }

    /// The name of the entry for the root directory, which gets one only if names have a prefix.
    pub fn root_entry_name(&self) -> (name: Option<String>)
        ensures
            match name {
                Some(name) => self.spec_root_name() == Some(name@),
                None => self.spec_root_name() is None,
            },
    {
        match &self.root_name {
            Some(root) => Some(root.clone()),
            None => None,
        }
    }
}

impl<D: EntryData> Builder<D> {
    /// Adds a filesystem entry to the builder.
    /// This method handles setting entry type, permissions and modification time from the metadata
    /// and modifies the entry name to include a final slash for directories (or remove the slash for non-directories).
    ///
    /// # Errors
    /// Forwards errors from [`Builder::add_entry()`].
    pub fn add_filesystem_entry(
        &mut self,
        name: String,
        data: D,
        is_directory: bool,
        metadata: &Metadata,
    ) -> (result: Result<&mut BuilderEntry<D>, AddEntryError>)
        requires
            old(self).wf(),
            metadata.modified matches Some(modified) ==> (
            old(self).spec_time_converter() matches Some(converter) ==> converter.handles(
                modified,
            )),
        ensures
            ({
                let stored = trim_end(name@, '/') + trailing_slash(is_directory);
                let fresh = EntryMetadata::spec_new(old(self).spec_time_converter());
                match result {
                    Ok(entry) => {
                        &&& !too_long(stored)
                        &&& !has_name(old(self).spec_entries(), stored)
                        &&& entry.spec_data() == data
                        &&& call_ensures(D::size, (&data,), entry.spec_size())
                        &&& data.exact() && data.measured() ==> entry.exact()
                        &&& entry.spec_meta().described(fresh, *metadata)
                        &&& final(self).spec_entries() == old(self).spec_entries().push(
                            (stored, *final(entry)),
                        )
                        &&& final(self).spec_entries().last().0 == sanitized(name@, is_directory)
                        &&& final(self).spec_size() == old(self).size_with(
                            stored,
                            entry.spec_size(),
                        )
                        &&& final(self).spec_time_converter() == old(self).spec_time_converter()
                        &&& final(entry).changed(*entry, final(entry).spec_meta())
                            ==> final(self).wf()
                    },
                    Err(AddEntryError::TooLongEntryName { entry_name }) => {
                        &&& too_long(stored)
                        &&& entry_name@ == stored
                        &&& *final(self) == *old(self)
                    },
                    Err(AddEntryError::DuplicateEntryName { entry_name }) => {
                        &&& !too_long(stored)
                        &&& has_name(old(self).spec_entries(), stored)
                        &&& entry_name@ == stored
                        &&& *final(self) == *old(self)
                    },
                    Err(AddEntryError::TooLongZipFile { entry_name }) => {
                        &&& !too_long(stored)
                        &&& !has_name(old(self).spec_entries(), stored)
                        &&& exists|size: u64| #[trigger]
                            call_ensures(D::size, (&data,), size) && old(self).size_with(
                                stored,
                                size,
                            ) > u64::MAX
                        &&& entry_name@ == stored
                        &&& *final(self) == *old(self)
                    },
                }
            }),
    {
        let name = sanitize_entry_name_slashes(name, is_directory);
        match self.add_entry_data(name, data) {
            Ok(entry) => Ok(entry.metadata(metadata)),
            Err(error) => Err(error),
        }
    }
}

} // verus!
