//! The map from PID to object, in the alphanumeric order of the PIDs, and
//! the walks over its datastream versions.
use crate::object::{Object, Pid};
use crate::paths::path_file_stem;
use crate::order::{
    alphanumeric_rank, compare_str, insertion_point, lemma_insertion_point,
    lemma_insertion_point_unique, precedes, reversed, strictly_in_order, strictly_ordered, HasKey,
    Rank,
};
use vstd::prelude::*;

verus! {

/// The objects of a repository, in the alphanumeric order of their PIDs.
pub struct ObjectMap {
    objects: Vec<Object>,
}

/// The PIDs of the objects, in order.
pub open spec fn pids_of(objects: Seq<Object>) -> Seq<Seq<char>> {
    Seq::new(objects.len(), |i: int| objects[i].key())
}

/// Where `key` stands among `keys`, if it does: the position just before
/// its insertion point, where the key there ranks equal to it.
pub open spec fn position_of(keys: Seq<Seq<char>>, key: Seq<char>) -> Option<int> {
    let j = insertion_point(keys, key);
    if j > 0 && alphanumeric_rank(key, keys[j - 1]) == Rank::Equal {
        Some(j - 1)
    } else {
        None
    }
}

/// The objects after `object` has entered: where no PID ranks equal to
/// its own, it takes its place in the order; where its own PID stands
/// there already, it takes the place of the object of that PID; and where
/// another PID ranks equal to its own, it is left out.
pub open spec fn objects_after(objects: Seq<Object>, object: Object) -> Seq<Object> {
    let keys = pids_of(objects);
    match position_of(keys, object.key()) {
        Some(at) => if keys[at] == object.key() {
            objects.update(at, object)
        } else {
            objects
        },
        None => objects.insert(insertion_point(keys, object.key()), object),
    }
}

/// The objects of the graph that a list of objects makes: the objects
/// enter one after the other, but for those that are excluded.
pub open spec fn graph_objects(objects: Seq<Object>) -> Seq<Object>
    decreases objects.len(),
{
    if objects.len() == 0 {
        Seq::empty()
    } else if objects.last()@.excluded() {
        graph_objects(objects.drop_last())
    } else {
        objects_after(graph_objects(objects.drop_last()), objects.last())
    }
}

/// An object that enters leaves the PIDs strictly increasing.
pub proof fn lemma_entry_keeps_order(objects: Seq<Object>, object: Object)
    requires
        strictly_ordered(pids_of(objects)),
    ensures
        strictly_ordered(pids_of(objects_after(objects, object))),
{
    let keys = pids_of(objects);
    let key = object.key();
    lemma_insertion_point(keys, key);
    let j = insertion_point(keys, key);
    let after = pids_of(objects_after(objects, object));
    match position_of(keys, key) {
        None => {
            assert(after =~= keys.insert(j, key));
            assert forall|i: int| 0 <= i < after.len() - 1 implies strictly_in_order(
                #[trigger] after[i],
                after[i + 1],
            ) by {
                if i + 1 < j {
                    assert(strictly_in_order(keys[i], keys[i + 1]));
                } else if i + 1 == j {
                    assert(!precedes(key, keys[j - 1]));
                    assert(alphanumeric_rank(key, keys[j - 1]) == Rank::Greater);
                } else if i == j {
                    assert(precedes(key.key(), keys[j].key()));
                } else {
                    assert(strictly_in_order(keys[i - 1], keys[i]));
                }
            }
        },
        Some(at) => {
            assert(after =~= keys);
        },
    }
}

/// Which versions of each datastream a walk takes.
#[derive(Clone, Copy, Debug, PartialEq, Eq, Structural)]
pub enum Selection {
    /// Every version.
    All,
    /// The last version only.
    Latest,
    /// Every version but the last.
    Previous,
}

impl Selection {
    /// The first index that is taken of `count` versions.
    pub open spec fn from(self, count: int) -> int {
        if self == Selection::Latest && count > 0 {
            count - 1
        } else {
            0
        }
    }

    /// The index behind the last that is taken of `count` versions.
    pub open spec fn to(self, count: int) -> int {
        if self == Selection::Previous && count > 0 {
            count - 1
        } else {
            count
        }
    }
}

/// One version by its place in the graph: the indices of its object, of
/// its datastream within the object, and of itself within the datastream.
pub type Place = (usize, usize, usize);

/// The places that are taken of one datastream with `count` versions, from
/// the oldest to the latest.
pub open spec fn datastream_places(selection: Selection, o: usize, d: usize, count: int) -> Seq<
    Place,
> {
    Seq::new(
        (selection.to(count) - selection.from(count)) as nat,
        |k: int| (o, d, (selection.from(count) + k) as usize),
    )
}

/// The places that are taken of the first `upto` datastreams of an object,
/// datastream by datastream.
pub open spec fn object_places(selection: Selection, o: usize, object: Object, upto: int) -> Seq<
    Place,
>
    decreases upto,
{
    if upto <= 0 {
        Seq::empty()
    } else {
        object_places(selection, o, object, upto - 1) + datastream_places(
            selection,
            o,
            (upto - 1) as usize,
            object.datastreams@[upto - 1].versions@.len() as int,
        )
    }
}

/// The places that are taken of the first `upto` objects, object by
/// object.
pub open spec fn graph_places(selection: Selection, objects: Seq<Object>, upto: int) -> Seq<Place>
    decreases upto,
{
    if upto <= 0 {
        Seq::empty()
    } else {
        graph_places(selection, objects, upto - 1) + object_places(
            selection,
            (upto - 1) as usize,
            objects[upto - 1],
            objects[upto - 1].datastreams@.len() as int,
        )
    }
}

/// `place` names a version that is there.
pub open spec fn place_exists(objects: Seq<Object>, place: Place) -> bool {
    &&& place.0 < objects.len()
    &&& place.1 < objects[place.0 as int].datastreams@.len()
    &&& place.2 < objects[place.0 as int].datastreams@[place.1 as int].versions@.len()
}

/// `place` names a version that `selection` takes.
pub open spec fn takes(selection: Selection, objects: Seq<Object>, place: Place) -> bool {
    &&& place_exists(objects, place)
    &&& selection.from(
        objects[place.0 as int].datastreams@[place.1 as int].versions@.len() as int,
    ) <= place.2 < selection.to(
        objects[place.0 as int].datastreams@[place.1 as int].versions@.len() as int,
    )
}

/// The walk over the first datastreams of an object holds the places of
/// the versions that the selection takes of them, and no others.
pub proof fn lemma_object_places(selection: Selection, o: usize, object: Object, upto: int, place: Place)
    requires
        0 <= upto <= object.datastreams@.len(),
    ensures
        object_places(selection, o, object, upto).contains(place) <==> place.0 == o && place.1 < upto
            && selection.from(object.datastreams@[place.1 as int].versions@.len() as int) <= place.2
            < selection.to(object.datastreams@[place.1 as int].versions@.len() as int),
    decreases upto,
{
    if upto > 0 {
        lemma_object_places(selection, o, object, upto - 1, place);
        let before = object_places(selection, o, object, upto - 1);
        vstd::std_specs::vec::axiom_spec_len(&object.datastreams);
        vstd::std_specs::vec::axiom_spec_len(&object.datastreams@[upto - 1].versions);
        let d = (upto - 1) as usize;
        let count = object.datastreams@[upto - 1].versions@.len() as int;
        let last = datastream_places(selection, o, d, count);
        let all = object_places(selection, o, object, upto);
        assert(all == before + last);
        if all.contains(place) {
            let k = choose|k: int| 0 <= k < all.len() && all[k] == place;
            if k < before.len() {
                assert(before[k] == place);
                assert(before.contains(place));
            } else {
                assert(last[k - before.len()] == place);
            }
        }
        if before.contains(place) {
            let k = choose|k: int| 0 <= k < before.len() && before[k] == place;
            assert(all[k] == place);
        }
        if place.0 == o && place.1 == d && selection.from(count) <= place.2 < selection.to(count) {
            let k = place.2 - selection.from(count);
            assert(last[k] == place);
            assert(all[before.len() + k] == place);
        }
    }
}

/// The walk over the first objects holds the places of the versions that
/// the selection takes of them, and no others.
pub proof fn lemma_graph_places(selection: Selection, objects: Seq<Object>, upto: int, place: Place)
    requires
        0 <= upto <= objects.len(),
        upto <= usize::MAX,
    ensures
        graph_places(selection, objects, upto).contains(place) <==> place.0 < upto && takes(
            selection,
            objects,
            place,
        ),
    decreases upto,
{
    if upto > 0 {
        lemma_graph_places(selection, objects, upto - 1, place);
        let before = graph_places(selection, objects, upto - 1);
        let o = (upto - 1) as usize;
        let object = objects[upto - 1];
        let last = object_places(selection, o, object, object.datastreams@.len() as int);
        let all = graph_places(selection, objects, upto);
        lemma_object_places(selection, o, object, object.datastreams@.len() as int, place);
        assert(all == before + last);
        if all.contains(place) {
            let k = choose|k: int| 0 <= k < all.len() && all[k] == place;
            if k < before.len() {
                assert(before[k] == place);
                assert(before.contains(place));
            } else {
                assert(last[k - before.len()] == place);
                assert(last.contains(place));
            }
        }
        if before.contains(place) {
            let k = choose|k: int| 0 <= k < before.len() && before[k] == place;
            assert(all[k] == place);
        }
        if last.contains(place) {
            let k = choose|k: int| 0 <= k < last.len() && last[k] == place;
            assert(all[before.len() + k] == place);
        }
    }
}

/// Of every datastream of the map, the walk over the latest versions
/// takes the last version and no other, and the walk over the previous
/// versions takes every version but the last.
pub proof fn lemma_latest_and_previous_of_map(objects: Seq<Object>, place: Place)
    requires
        objects.len() <= usize::MAX,
        place_exists(objects, place),
    ensures
        graph_places(Selection::Latest, objects, objects.len() as int).contains(place) <==> place.2
            == objects[place.0 as int].datastreams@[place.1 as int].versions@.len() - 1,
        graph_places(Selection::Previous, objects, objects.len() as int).contains(place) <==> place.2
            < objects[place.0 as int].datastreams@[place.1 as int].versions@.len() - 1,
        graph_places(Selection::All, objects, objects.len() as int).contains(place),
{
    lemma_graph_places(Selection::Latest, objects, objects.len() as int, place);
    lemma_graph_places(Selection::Previous, objects, objects.len() as int, place);
    lemma_graph_places(Selection::All, objects, objects.len() as int, place);
}

/// Of a datastream with at least one version, the walk over the latest
/// versions takes the last one and nothing else, the walk over the
/// previous versions takes all the others, and the two together, previous
/// ones first, are the walk over all.
pub proof fn lemma_latest_and_previous(o: usize, d: usize, count: int)
    requires
        0 < count <= usize::MAX,
    ensures
        datastream_places(Selection::Latest, o, d, count) == seq![(o, d, (count - 1) as usize)],
        datastream_places(Selection::Previous, o, d, count) == Seq::new(
            (count - 1) as nat,
            |k: int| (o, d, k as usize),
        ),
        datastream_places(Selection::Previous, o, d, count) + datastream_places(
            Selection::Latest,
            o,
            d,
            count,
        ) == datastream_places(Selection::All, o, d, count),
{
    assert(datastream_places(Selection::Latest, o, d, count) =~= seq![
        (o, d, (count - 1) as usize),
    ]);
    assert(datastream_places(Selection::Previous, o, d, count) =~= Seq::new(
        (count - 1) as nat,
        |k: int| (o, d, k as usize),
    ));
    assert(datastream_places(Selection::Previous, o, d, count) + datastream_places(
        Selection::Latest,
        o,
        d,
        count,
    ) =~= datastream_places(Selection::All, o, d, count));
}

/// `pid` is one of `pids`.
pub open spec fn listed(pids: Seq<String>, pid: Seq<char>) -> bool {
    exists|k: int| 0 <= k < pids.len() && (#[trigger] pids[k])@ == pid
}

/// The object file at `path` is taken in: always where no PID is asked
/// for; else where the PID that its name holds is one of those asked for.
pub open spec fn taken_in(path: Seq<char>, limit_to_pids: Seq<String>) -> bool {
    limit_to_pids.len() == 0 || match path_file_stem(path) {
        Some(pid) => listed(limit_to_pids, pid),
        None => false,
    }
}

/// The places in `paths` of the object files that are taken in, in order.
pub fn object_files(paths: &Vec<String>, limit_to_pids: &Vec<String>) -> (r: Vec<usize>)
    ensures
        forall|k: int, l: int| 0 <= k < l < r.len() ==> r[k] < r[l],
        forall|k: int|
            0 <= k < r.len() ==> #[trigger] r[k] < paths.len() && taken_in(
                paths[r[k] as int]@,
                limit_to_pids@,
            ),
        forall|i: int|
            0 <= i < paths.len() && taken_in(#[trigger] paths[i]@, limit_to_pids@) ==> r@.contains(
                i as usize,
            ),
{
    let mut r: Vec<usize> = Vec::new();
    let mut i: usize = 0;
    while i < paths.len()
        invariant
            i <= paths.len(),
            forall|k: int, l: int| 0 <= k < l < r.len() ==> r[k] < r[l],
            forall|k: int|
                0 <= k < r.len() ==> #[trigger] r[k] < i && taken_in(
                    paths[r[k] as int]@,
                    limit_to_pids@,
                ),
            forall|j: int|
                0 <= j < i && taken_in(#[trigger] paths[j]@, limit_to_pids@) ==> r@.contains(
                    j as usize,
                ),
        decreases paths.len() - i,
    {
        let keep = if limit_to_pids.len() == 0 {
            true
        } else {
            match Pid::from_path(paths[i].as_str()) {
                Some(pid) => {
                    let mut found = false;
                    let mut k: usize = 0;
                    while k < limit_to_pids.len() && !found
                        invariant
                            k <= limit_to_pids.len(),
                            found ==> listed(limit_to_pids@, pid.0@),
                            !found ==> forall|m: int| 0 <= m < k ==> limit_to_pids[m]@ != pid.0@,
                        decreases limit_to_pids.len() - k,
                    {
                        if limit_to_pids[k].as_str().eq(pid.0.as_str()) {
                            found = true;
                        }
                        k += 1;
                    }
                    found
                },
                None => false,
            }
        };
        let ghost before = r@;
        if keep {
            r.push(i);
            assert(r@[r.len() - 1] == i);
        }
        assert forall|j: int|
            0 <= j < i + 1 && taken_in(#[trigger] paths[j]@, limit_to_pids@) implies r@.contains(
            j as usize,
        ) by {
            if j < i {
                assert(before.contains(j as usize));
                let m = choose|m: int| 0 <= m < before.len() && before[m] == j as usize;
                assert(r@[m] == j as usize);
            }
        }
        i += 1;
    }
    r
}

impl ObjectMap {
    /// The objects, in order.
    pub closed spec fn entries(&self) -> Seq<Object> {
        self.objects@
    }

    /// The PIDs of the objects, in order.
    pub open spec fn keys(&self) -> Seq<Seq<char>> {
        pids_of(self.entries())
    }

    /// The PIDs are strictly increasing in the alphanumeric order.
    pub open spec fn well_formed(&self) -> bool {
        strictly_ordered(self.keys())
    }

    /// The map without objects.
    pub fn new() -> (r: ObjectMap)
        ensures
            r.entries() == Seq::<Object>::empty(),
            r.well_formed(),
    {
        ObjectMap { objects: Vec::new() }
    }

    /// The insertion point of `key` among the PIDs.
    fn locate(&self, key: &str) -> (j: usize)
        ensures
            j == insertion_point(self.keys(), key@),
            j <= self.entries().len(),
    {
        let mut j: usize = self.objects.len();
        while j > 0 && compare_str(key, self.objects[j - 1].pid.0.as_str()) == Rank::Less
            invariant
                j <= self.objects.len(),
                forall|k: int|
                    j <= k < self.objects.len() ==> precedes(
                        key@,
                        #[trigger] pids_of(self.objects@)[k],
                    ),
            decreases j,
        {
            j -= 1;
        }
        proof {
            lemma_insertion_point_unique(pids_of(self.objects@), key@, j as int);
        }
        j
    }

    /// Enters `object` in the order of the PIDs. An object of the same PID
    /// gives way to it; where another PID ranks equal to its own, the
    /// object is left out.
    pub fn insert(&mut self, object: Object)
        requires
            old(self).well_formed(),
        ensures
            final(self).entries() == objects_after(old(self).entries(), object),
            final(self).well_formed(),
    {
        proof {
            lemma_entry_keeps_order(self.entries(), object);
        }
        let j = self.locate(object.pid.0.as_str());
        if j > 0 && compare_str(object.pid.0.as_str(), self.objects[j - 1].pid.0.as_str())
            == Rank::Equal {
            if self.objects[j - 1].pid.0.as_str().eq(object.pid.0.as_str()) {
                self.objects.set(j - 1, object);
            }
        } else {
            self.objects.insert(j, object);
        }
    }

    /// The graph of a list of objects: they enter one after the other, but
    /// for system objects, content models and objects without a model.
    pub fn from_objects(objects: Vec<Object>) -> (r: ObjectMap)
        ensures
            r.entries() == graph_objects(objects@),
            r.well_formed(),
    {
        let ghost all = objects@;
        let mut stack = reversed(objects);
        let mut map = ObjectMap::new();
        while stack.len() > 0
            invariant
                stack.len() <= all.len(),
                forall|k: int| 0 <= k < stack.len() ==> stack@[k] == all[all.len() - 1 - k],
                map.entries() == graph_objects(all.take(all.len() - stack.len())),
                map.well_formed(),
            decreases stack.len(),
        {
            let ghost n = all.len() - stack.len();
            let object = stack.pop().unwrap();
            assert(all.take(n + 1).drop_last() == all.take(n));
            assert(all.take(n + 1).last() == object);
            if !(object.is_system_object() || object.is_content_model()
                || object.missing_content_model()) {
                map.insert(object);
            }
        }
        assert(all.take(all.len() as int) == all);
        map
    }

    /// The object whose PID ranks equal to `pid`.
    pub fn get(&self, pid: &str) -> (r: Option<&Object>)
        requires
            self.well_formed(),
        ensures
            match position_of(self.keys(), pid@) {
                Some(at) => r matches Some(object) && *object == self.entries()[at],
                None => r is None,
            },
    {
        let j = self.locate(pid);
        if j > 0 && compare_str(pid, self.objects[j - 1].pid.0.as_str()) == Rank::Equal {
            Some(&self.objects[j - 1])
        } else {
            None
        }
    }

    /// The objects, in the order of their PIDs.
    pub fn objects(&self) -> (r: &Vec<Object>)
        ensures
            r@ == self.entries(),
    {
        &self.objects
    }

    /// The same as `objects`.
    pub fn inner(&self) -> (r: &Vec<Object>)
        ensures
            r@ == self.entries(),
    {
        &self.objects
    }

    /// The places of the versions that `selection` takes, object by
    /// object, datastream by datastream, and from the oldest version to
    /// the latest.
    pub fn places(&self, selection: Selection) -> (r: Vec<Place>)
        ensures
            r@ == graph_places(selection, self.entries(), self.entries().len() as int),
            forall|i: int| 0 <= i < r.len() ==> place_exists(self.entries(), #[trigger] r@[i]),
    {
        let mut r: Vec<Place> = Vec::new();
        let mut o: usize = 0;
        while o < self.objects.len()
            invariant
                o <= self.objects.len(),
                r@ == graph_places(selection, self.objects@, o as int),
                forall|i: int| 0 <= i < r.len() ==> place_exists(self.objects@, #[trigger] r@[i]),
            decreases self.objects.len() - o,
        {
            let object = &self.objects[o];
            let ghost before_object = r@;
            let mut d: usize = 0;
            while d < object.datastreams.len()
                invariant
                    o < self.objects.len(),
                    *object == self.objects@[o as int],
                    d <= object.datastreams.len(),
                    r@ == before_object + object_places(selection, o, *object, d as int),
                    forall|i: int|
                        0 <= i < r.len() ==> place_exists(self.objects@, #[trigger] r@[i]),
                decreases object.datastreams.len() - d,
            {
                let count = object.datastreams[d].versions.len();
                let from = if selection == Selection::Latest && count > 0 {
                    count - 1
                } else {
                    0
                };
                let to = if selection == Selection::Previous && count > 0 {
                    count - 1
                } else {
                    count
                };
                let ghost before_datastream = r@;
                let mut v: usize = from;
                while v < to
                    invariant
                        o < self.objects.len(),
                        *object == self.objects@[o as int],
                        d < object.datastreams.len(),
                        count == object.datastreams@[d as int].versions@.len(),
                        from == selection.from(count as int),
                        to == selection.to(count as int),
                        from <= v <= to <= count,
                        r@ == before_datastream + datastream_places(
                            selection,
                            o,
                            d,
                            count as int,
                        ).take(v - from),
                        forall|i: int|
                            0 <= i < r.len() ==> place_exists(self.objects@, #[trigger] r@[i]),
                    decreases to - v,
                {
                    r.push((o, d, v));
                    assert(r@ =~= before_datastream + datastream_places(
                        selection,
                        o,
                        d,
                        count as int,
                    ).take(v + 1 - from));
                    v += 1;
                }
                assert(datastream_places(selection, o, d, count as int).take(to - from)
                    == datastream_places(selection, o, d, count as int));
                assert(r@ =~= before_object + object_places(selection, o, *object, d + 1));
                d += 1;
            }
            o += 1;
        }
        r
    }

    /// The places of all versions.
    pub fn versions(&self) -> (r: Vec<Place>)
        ensures
            r@ == graph_places(Selection::All, self.entries(), self.entries().len() as int),
            forall|i: int| 0 <= i < r.len() ==> place_exists(self.entries(), #[trigger] r@[i]),
    {
        self.places(Selection::All)
    }

    /// The places of the latest version of every datastream.
    pub fn latest_versions(&self) -> (r: Vec<Place>)
        ensures
            r@ == graph_places(Selection::Latest, self.entries(), self.entries().len() as int),
            forall|i: int| 0 <= i < r.len() ==> place_exists(self.entries(), #[trigger] r@[i]),
    {
        self.places(Selection::Latest)
    }

    /// The places of every version but the latest of every datastream.
    pub fn previous_versions(&self) -> (r: Vec<Place>)
        ensures
            r@ == graph_places(Selection::Previous, self.entries(), self.entries().len() as int),
            forall|i: int| 0 <= i < r.len() ==> place_exists(self.entries(), #[trigger] r@[i]),
    {
        self.places(Selection::Previous)
    }
}

} // verus!
