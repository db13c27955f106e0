//! The directories that a run works on: where they must lie, and the two
//! roots below which staged objects and datastreams are found.
use crate::paths::{join, joined};
use vstd::prelude::*;
use vstd::string::StringExecFns;

verus! {

/// The two roots of a staged tree. Each is set once; a root that is set
/// stays as it is.
pub struct Directories {
    objects: Option<String>,
    datastreams: Option<String>,
}

/// The character sequence of an optional string.
pub open spec fn root_text(root: Option<String>) -> Option<Seq<char>> {
    match root {
        Some(path) => Some(path@),
        None => None,
    }
}

impl Directories {
    /// The root of the staged objects, if it is set.
    pub closed spec fn objects(&self) -> Option<Seq<char>> {
        root_text(self.objects)
    }

    /// The root of the staged datastreams, if it is set.
    pub closed spec fn datastreams(&self) -> Option<Seq<char>> {
        root_text(self.datastreams)
    }

    /// Neither root is set.
    pub fn new() -> (r: Directories)
        ensures
            r.objects() is None,
            r.datastreams() is None,
    {
        Directories { objects: None, datastreams: None }
    }

    /// Sets the root of the staged objects, unless it is set already.
    pub fn set_objects_directory(&mut self, path: &str)
        ensures
            final(self).objects() == match old(self).objects() {
                Some(root) => Some(root),
                None => Some(path@),
            },
            final(self).datastreams() == old(self).datastreams(),
    {
        if self.objects.is_none() {
            self.objects = Some(String::from_str(path));
        }
    }

    /// Sets the root of the staged datastreams, unless it is set already.
    pub fn set_datastreams_directory(&mut self, path: &str)
        ensures
            final(self).datastreams() == match old(self).datastreams() {
                Some(root) => Some(root),
                None => Some(path@),
            },
            final(self).objects() == old(self).objects(),
    {
        if self.datastreams.is_none() {
            self.datastreams = Some(String::from_str(path));
        }
    }

    /// The root of the staged objects, if it is set.
    pub fn objects_directory(&self) -> (r: &Option<String>)
        ensures
            root_text(*r) == self.objects(),
    {
        &self.objects
    }

    /// The root of the staged datastreams, if it is set.
    pub fn datastreams_directory(&self) -> (r: &Option<String>)
        ensures
            root_text(*r) == self.datastreams(),
    {
        &self.datastreams
    }
}

/// What was found of a directory and of the two directories that must lie
/// in it: whether each is there.
#[derive(Clone, Copy, Debug, PartialEq, Eq, Structural)]
pub struct Layout {
    pub root: bool,
    pub first: bool,
    pub second: bool,
}

/// What is said of a directory that is not there.
pub open spec fn missing_directory(path: Seq<char>) -> Seq<char> {
    "The directory '"@ + path + "' does not exist"@
}

/// What is said of a directory that is not there.
pub fn missing_directory_message(path: &str) -> (r: String)
    ensures
        r@ == missing_directory(path@),
{
    let mut r = String::from_str("The directory '");
    r.append(path);
    r.append("' does not exist");
    r
}

/// The first of the three directories that is not there.
pub open spec fn first_missing(path: Seq<char>, first: Seq<char>, second: Seq<char>, found: Layout) -> Option<
    Seq<char>,
> {
    if !found.root {
        Some(path)
    } else if !found.first {
        Some(joined(path, first))
    } else if !found.second {
        Some(joined(path, second))
    } else {
        None
    }
}

/// Checks that `path` is a staged tree: that it is there, and `objects`
/// and `datastreams` in it. Each of the two that is there becomes a root,
/// up to the first directory that is missing, which the error names.
pub fn valid_source_directory(path: &str, found: Layout, directories: &mut Directories) -> (r:
    Result<(), String>)
    ensures
        match first_missing(path@, "objects"@, "datastreams"@, found) {
            Some(missing) => r matches Err(message) && message@ == missing_directory(missing),
            None => r is Ok,
        },
        final(directories).objects() == if found.root && found.first && old(
            directories,
        ).objects() is None {
            Some(joined(path@, "objects"@))
        } else {
            old(directories).objects()
        },
        final(directories).datastreams() == if found.root && found.first && found.second && old(
            directories,
        ).datastreams() is None {
            Some(joined(path@, "datastreams"@))
        } else {
            old(directories).datastreams()
        },
{
    if !found.root {
        return Err(missing_directory_message(path));
    }
    let objects = join(path, "objects");
    if !found.first {
        return Err(missing_directory_message(objects.as_str()));
    }
    directories.set_objects_directory(objects.as_str());
    let datastreams = join(path, "datastreams");
    if !found.second {
        return Err(missing_directory_message(datastreams.as_str()));
    }
    directories.set_datastreams_directory(datastreams.as_str());
    Ok(())
}

/// Checks that `path` is a Fedora installation: that it is there, and
/// `data/objectStore` and `data/datastreamStore` in it. The error names
/// the first directory that is missing.
pub fn valid_fedora_directory(path: &str, found: Layout) -> (r: Result<(), String>)
    ensures
        match first_missing(path@, "data/objectStore"@, "data/datastreamStore"@, found) {
            Some(missing) => r matches Err(message) && message@ == missing_directory(missing),
            None => r is Ok,
        },
{
    if !found.root {
        return Err(missing_directory_message(path));
    }
    if !found.first {
        return Err(missing_directory_message(join(path, "data/objectStore").as_str()));
    }
    if !found.second {
        return Err(missing_directory_message(join(path, "data/datastreamStore").as_str()));
    }
    Ok(())
}

} // verus!
