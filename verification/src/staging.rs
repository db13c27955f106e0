//! The plan of the staging phase: which file of the installation is which
//! object or version, where each goes, and which files no object refers to.
use crate::extensions::{file_name_of, version_file_name};
use crate::foxml::{Foxml, FoxmlControlGroup};
use crate::identifiers::{
    datastream_identifier_of_path, object_pid_of_path, DatastreamIdentifier,
    DatastreamIdentifierView, ObjectIdentifier,
};
use crate::paths::{join, joined};
use vstd::prelude::*;
use vstd::string::StringExecFns;

verus! {

/// A kind of identifier that the name of a file may hold.
pub trait Identifier: Sized {
    /// The file at `path` holds an identifier of this kind.
    spec fn identifiable(path: Seq<char>) -> bool;

    /// `self` is the identifier that the file at `path` holds.
    spec fn identifies(&self, path: Seq<char>) -> bool;

    /// The identifier that the file at `path` holds, if it holds one.
    fn from_path(path: &str) -> (r: Option<Self>)
        ensures
            match r {
                Some(identifier) => Self::identifiable(path@) && identifier.identifies(path@),
                None => !Self::identifiable(path@),
            },
    ;
}

impl Identifier for ObjectIdentifier {
    open spec fn identifiable(path: Seq<char>) -> bool {
        object_pid_of_path(path) is Some
    }

    open spec fn identifies(&self, path: Seq<char>) -> bool {
        object_pid_of_path(path) == Some(self.pid@)
    }

    fn from_path(path: &str) -> (r: Option<Self>) {
        ObjectIdentifier::from_path(path)
    }
}

impl Identifier for DatastreamIdentifier {
    open spec fn identifiable(path: Seq<char>) -> bool {
        datastream_identifier_of_path(path) is Some
    }

    open spec fn identifies(&self, path: Seq<char>) -> bool {
        datastream_identifier_of_path(path) == Some(self@)
    }

    fn from_path(path: &str) -> (r: Option<Self>) {
        DatastreamIdentifier::from_path(path)
    }
}

/// The indices grow from each to the next and stay below `bound`.
pub open spec fn increasing_below(indices: Seq<usize>, bound: int) -> bool {
    &&& forall|k: int| 0 <= k < indices.len() ==> #[trigger] indices[k] < bound
    &&& forall|k: int, l: int| 0 <= k < l < indices.len() ==> indices[k] < indices[l]
}

/// The indices that go with the identifiers.
pub open spec fn indices_of<T>(known: Seq<(T, usize)>) -> Seq<usize> {
    Seq::new(known.len(), |k: int| known[k].1)
}

/// The first index of each pair.
pub open spec fn firsts(pairs: Seq<(usize, usize)>) -> Seq<usize> {
    Seq::new(pairs.len(), |k: int| pairs[k].0)
}

/// Tells the files that hold an identifier from those that do not. The
/// first list holds, in the order of `paths`, each identifier with the
/// index of its path; the second the indices of the paths that hold none.
pub fn identify_files<T: Identifier>(paths: &Vec<String>) -> (r: (Vec<(T, usize)>, Vec<usize>))
    ensures
        r.0.len() + r.1.len() == paths.len(),
        increasing_below(indices_of(r.0@), paths.len() as int),
        increasing_below(r.1@, paths.len() as int),
        forall|k: int|
            0 <= k < r.0.len() ==> T::identifiable(paths[(#[trigger] r.0[k]).1 as int]@)
                && r.0[k].0.identifies(paths[r.0[k].1 as int]@),
        forall|k: int| 0 <= k < r.1.len() ==> !T::identifiable(paths[#[trigger] r.1[k] as int]@),
{
    let mut known: Vec<(T, usize)> = Vec::new();
    let mut unknown: Vec<usize> = Vec::new();
    let mut i: usize = 0;
    while i < paths.len()
        invariant
            i <= paths.len(),
            known.len() + unknown.len() == i,
            increasing_below(indices_of(known@), i as int),
            increasing_below(unknown@, i as int),
            forall|k: int|
                0 <= k < known.len() ==> T::identifiable(paths[(#[trigger] known[k]).1 as int]@)
                    && known[k].0.identifies(paths[known[k].1 as int]@),
            forall|k: int|
                0 <= k < unknown.len() ==> !T::identifiable(paths[#[trigger] unknown[k] as int]@),
        decreases paths.len() - i,
    {
        match T::from_path(paths[i].as_str()) {
            Some(identifier) => {
                let ghost before = known@;
                known.push((identifier, i));
                assert(indices_of(known@) =~= indices_of(before).push(i));
            },
            None => {
                unknown.push(i);
            },
        }
        i += 1;
    }
    (known, unknown)
}

/// Where the file of an object is staged: `<directory>/<pid>.xml`.
pub open spec fn object_target(directory: Seq<char>, pid: Seq<char>) -> Seq<char> {
    joined(directory, pid + ".xml"@)
}

/// Where the file of an object is staged.
pub fn object_destination(directory: &str, identifier: &ObjectIdentifier) -> (r: String)
    ensures
        r@ == object_target(directory@, identifier.pid@),
{
    let mut name = identifier.pid.clone();
    name.append(".xml");
    join(directory, name.as_str())
}

/// One version by its place in a list of FOXML documents: the indices of
/// its object, of its datastream within the object, and of itself within
/// the datastream.
pub type Source = (usize, usize, usize);

/// The places of the versions of one datastream with `count` versions.
pub open spec fn datastream_sources(o: usize, d: usize, count: int) -> Seq<Source> {
    Seq::new(count as nat, |k: int| (o, d, k as usize))
}

/// The places of the versions of the first `upto` datastreams of an object
/// that are of the given control group.
pub open spec fn object_sources(group: FoxmlControlGroup, o: usize, object: Foxml, upto: int) -> Seq<
    Source,
>
    decreases upto,
{
    if upto <= 0 {
        Seq::empty()
    } else if object.datastreams@[upto - 1].control_group == group {
        object_sources(group, o, object, upto - 1) + datastream_sources(
            o,
            (upto - 1) as usize,
            object.datastreams@[upto - 1].versions@.len() as int,
        )
    } else {
        object_sources(group, o, object, upto - 1)
    }
}

/// The places of the versions of the first `upto` objects that are of the
/// given control group.
pub open spec fn sources(group: FoxmlControlGroup, objects: Seq<Foxml>, upto: int) -> Seq<Source>
    decreases upto,
{
    if upto <= 0 {
        Seq::empty()
    } else {
        sources(group, objects, upto - 1) + object_sources(
            group,
            (upto - 1) as usize,
            objects[upto - 1],
            objects[upto - 1].datastreams@.len() as int,
        )
    }
}

/// The identifier of the version at `source`.
pub open spec fn identifier_at(objects: Seq<Foxml>, source: Source) -> DatastreamIdentifierView {
    let object = objects[source.0 as int];
    let datastream = object.datastreams@[source.1 as int];
    DatastreamIdentifierView {
        pid: object.pid@,
        dsid: datastream.id@,
        version: datastream.versions@[source.2 as int].id@,
    }
}

/// Where the version at `source` is staged below `directory`:
/// `<directory>/<pid>/<dsid>/<version>/<file name>`.
pub open spec fn target_at(objects: Seq<Foxml>, source: Source, directory: Seq<char>) -> Seq<char> {
    let object = objects[source.0 as int];
    let datastream = object.datastreams@[source.1 as int];
    let version = datastream.versions@[source.2 as int];
    joined(
        identifier_at(objects, source).below(directory),
        file_name_of(object.pid@, datastream.id@, version.id@, version.label@, version.mime_type@),
    )
}

/// Every version of the given control group that the objects refer to,
/// with the place where it is staged below `dest`: object by object,
/// datastream by datastream, version by version.
pub fn datastreams(objects: &Vec<Foxml>, group: FoxmlControlGroup, dest: &str) -> (r: Vec<
    (DatastreamIdentifier, String),
>)
    ensures
        r.len() == sources(group, objects@, objects.len() as int).len(),
        forall|i: int|
            0 <= i < r.len() ==> (#[trigger] r[i]).0@ == identifier_at(
                objects@,
                sources(group, objects@, objects.len() as int)[i],
            ) && r[i].1@ == target_at(
                objects@,
                sources(group, objects@, objects.len() as int)[i],
                dest@,
            ),
{
    let mut r: Vec<(DatastreamIdentifier, String)> = Vec::new();
    let ghost mut placed: Seq<Source> = Seq::empty();
    let mut o: usize = 0;
    while o < objects.len()
        invariant
            o <= objects.len(),
            placed == sources(group, objects@, o as int),
            r.len() == placed.len(),
            forall|i: int|
                0 <= i < r.len() ==> (#[trigger] r[i]).0@ == identifier_at(objects@, placed[i])
                    && r[i].1@ == target_at(objects@, placed[i], dest@),
        decreases objects.len() - o,
    {
        let object = &objects[o];
        let ghost before_object = placed;
        let mut d: usize = 0;
        while d < object.datastreams.len()
            invariant
                o < objects.len(),
                *object == objects@[o as int],
                d <= object.datastreams.len(),
                placed == before_object + object_sources(group, o, *object, d as int),
                r.len() == placed.len(),
                forall|i: int|
                    0 <= i < r.len() ==> (#[trigger] r[i]).0@ == identifier_at(objects@, placed[i])
                        && r[i].1@ == target_at(objects@, placed[i], dest@),
            decreases object.datastreams.len() - d,
        {
            let datastream = &object.datastreams[d];
            if datastream.control_group == group {
                let ghost before_datastream = placed;
                let mut v: usize = 0;
                while v < datastream.versions.len()
                    invariant
                        o < objects.len(),
                        *object == objects@[o as int],
                        d < object.datastreams.len(),
                        *datastream == object.datastreams@[d as int],
                        v <= datastream.versions.len(),
                        placed == before_datastream + datastream_sources(
                            o,
                            d,
                            datastream.versions@.len() as int,
                        ).take(v as int),
                        r.len() == placed.len(),
                        forall|i: int|
                            0 <= i < r.len() ==> (#[trigger] r[i]).0@ == identifier_at(
                                objects@,
                                placed[i],
                            ) && r[i].1@ == target_at(objects@, placed[i], dest@),
                    decreases datastream.versions.len() - v,
                {
                    let version = &datastream.versions[v];
                    let identifier = DatastreamIdentifier {
                        pid: object.pid.clone(),
                        dsid: datastream.id.clone(),
                        version: version.id.clone(),
                    };
                    let file_name = version_file_name(
                        object.pid.as_str(),
                        datastream.id.as_str(),
                        version.id.as_str(),
                        version.label.as_str(),
                        version.mime_type.as_str(),
                    );
                    let target = join(identifier.as_path(dest).as_str(), file_name.as_str());
                    r.push((identifier, target));
                    proof {
                        let all = datastream_sources(o, d, datastream.versions@.len() as int);
                        assert(all.take(v + 1) =~= all.take(v as int).push((o, d, v)));
                        placed = placed.push((o, d, v));
                        assert(placed =~= before_datastream + all.take(v + 1));
                    }
                    v += 1;
                }
                proof {
                    let all = datastream_sources(o, d, datastream.versions@.len() as int);
                    assert(all.take(datastream.versions@.len() as int) == all);
                    assert(placed =~= before_object + object_sources(group, o, *object, d + 1));
                }
            }
            d += 1;
        }
        o += 1;
    }
    r
}

/// The last place in `managed` of an identifier that is the same as
/// `identifier`; none where there is no such place.
pub open spec fn reference_to(managed: Seq<DatastreamIdentifier>, identifier: DatastreamIdentifierView) -> Option<
    int,
>
    decreases managed.len(),
{
    if managed.len() == 0 {
        None
    } else if managed.last()@ == identifier {
        Some(managed.len() - 1)
    } else {
        reference_to(managed.drop_last(), identifier)
    }
}

/// The last place in `managed` of an identifier that is the same as
/// `identifier`.
pub fn find_reference(managed: &Vec<DatastreamIdentifier>, identifier: &DatastreamIdentifier) -> (r:
    Option<usize>)
    ensures
        match r {
            Some(j) => reference_to(managed@, identifier@) == Some(j as int) && j < managed.len(),
            None => reference_to(managed@, identifier@) is None,
        },
{
    let mut j: usize = managed.len();
    assert(managed@.take(managed.len() as int) == managed@);
    while j > 0
        invariant
            j <= managed.len(),
            reference_to(managed@, identifier@) == reference_to(managed@.take(j as int), identifier@),
        decreases j,
    {
        assert(managed@.take(j as int).drop_last() == managed@.take(j - 1));
        if managed[j - 1].same(identifier) {
            return Some(j - 1);
        }
        j -= 1;
    }
    None
}

/// What the plan makes of the files of the datastream store: `migrate`
/// pairs each file that an object refers to with its reference, `orphans`
/// holds the files that no object refers to; both in the order of the
/// files.
pub struct ManagedPlan {
    pub migrate: Vec<(usize, usize)>,
    pub orphans: Vec<usize>,
}

/// Parts the files of the datastream store into those that an object
/// refers to and the orphans.
pub fn migrate_managed_datastreams(files: &Vec<DatastreamIdentifier>, managed: &Vec<DatastreamIdentifier>) -> (r:
    ManagedPlan)
    ensures
        r.migrate.len() + r.orphans.len() == files.len(),
        increasing_below(firsts(r.migrate@), files.len() as int),
        increasing_below(r.orphans@, files.len() as int),
        forall|k: int|
            0 <= k < r.migrate.len() ==> reference_to(
                managed@,
                files[(#[trigger] r.migrate[k]).0 as int]@,
            ) == Some(r.migrate[k].1 as int),
        forall|k: int|
            0 <= k < r.orphans.len() ==> reference_to(managed@, files[#[trigger] r.orphans[k] as int]@)
                is None,
{
    let mut migrate: Vec<(usize, usize)> = Vec::new();
    let mut orphans: Vec<usize> = Vec::new();
    let mut i: usize = 0;
    while i < files.len()
        invariant
            i <= files.len(),
            migrate.len() + orphans.len() == i,
            increasing_below(firsts(migrate@), i as int),
            increasing_below(orphans@, i as int),
            forall|k: int|
                0 <= k < migrate.len() ==> reference_to(
                    managed@,
                    files[(#[trigger] migrate[k]).0 as int]@,
                ) == Some(migrate[k].1 as int),
            forall|k: int|
                0 <= k < orphans.len() ==> reference_to(managed@, files[#[trigger] orphans[k] as int]@)
                    is None,
        decreases files.len() - i,
    {
        match find_reference(managed, &files[i]) {
            Some(j) => {
                let ghost before = migrate@;
                migrate.push((i, j));
                assert(firsts(migrate@) =~= firsts(before).push(i));
            },
            None => {
                orphans.push(i);
            },
        }
        i += 1;
    }
    ManagedPlan { migrate, orphans }
}

} // verus!
