//! The names of the files of a Fedora installation: which object, or which
//! version of which datastream, a file holds.
use crate::order::{alphanumeric_rank, compare_str, Rank};
use crate::paths::{join, joined, name_of, path_file_name};
use crate::text::{chars_of, has_at, occurs_at, slice_of, string_of};
use vstd::prelude::*;

verus! {

/// `info:fedora/`, as a file name holds it.
pub open spec fn scheme() -> Seq<char> {
    "info%3Afedora%2F"@
}

/// The colon between namespace and local name, as a file name holds it.
pub open spec fn colon() -> Seq<char> {
    "%3A"@
}

/// The slash between PID, datastream and version, as a file name holds it.
pub open spec fn slash() -> Seq<char> {
    "%2F"@
}

/// The underscore, as a file name sometimes holds it.
pub open spec fn underscore() -> Seq<char> {
    "%5F"@
}

/// `s` with every `%5F` read as an underscore, from left to right.
pub open spec fn decoded(s: Seq<char>) -> Seq<char>
    decreases s.len(),
{
    if s.len() == 0 {
        s
    } else if s.len() >= 3 && occurs_at(s, underscore(), 0) {
        seq!['_'] + decoded(s.skip(3))
    } else {
        seq![s.first()] + decoded(s.skip(1))
    }
}

/// `s` with every underscore written as `%5F`.
pub open spec fn encoded(s: Seq<char>) -> Seq<char>
    decreases s.len(),
{
    if s.len() == 0 {
        s
    } else if s.first() == '_' {
        underscore() + encoded(s.skip(1))
    } else {
        seq![s.first()] + encoded(s.skip(1))
    }
}

/// Where the line ends that holds position `from`: at the first line feed
/// from there on, or at the end of `s`.
pub open spec fn line_end(s: Seq<char>, from: int) -> int
    decreases s.len() - from,
{
    if from < 0 || from >= s.len() {
        s.len() as int
    } else if s[from] == '\n' {
        from
    } else {
        line_end(s, from + 1)
    }
}

/// The last place at which `part` stands in `s` between `from` and `to`.
pub open spec fn last_occurrence(s: Seq<char>, part: Seq<char>, from: int, to: int) -> Option<int>
    decreases to - from,
{
    if part.len() == 0 || to - part.len() < from {
        None
    } else if occurs_at(s, part, to - part.len()) {
        Some(to - part.len())
    } else {
        last_occurrence(s, part, from, to - 1)
    }
}

/// What the two groups of the pattern `info%3Afedora%2F(.*)%3A(.*)` hold
/// where the match starts at `p`: behind the scheme, all up to the last
/// `%3A` of the line, and all behind it to the end of the line.
pub open spec fn object_match_at(s: Seq<char>, p: int) -> Option<(Seq<char>, Seq<char>)> {
    if occurs_at(s, scheme(), p) {
        let start = p + scheme().len();
        let end = line_end(s, start);
        match last_occurrence(s, colon(), start, end) {
            Some(q) => Some((s.subrange(start, q), s.subrange(q + 3, end))),
            None => None,
        }
    } else {
        None
    }
}

/// The groups of the leftmost match of the object pattern from `p` on.
pub open spec fn object_match(s: Seq<char>, p: int) -> Option<(Seq<char>, Seq<char>)>
    decreases s.len() - p,
{
    if p < 0 || p >= s.len() {
        None
    } else {
        match object_match_at(s, p) {
            Some(groups) => Some(groups),
            None => object_match(s, p + 1),
        }
    }
}

/// The PID that the name of a file of the object store holds.
pub open spec fn object_pid(name: Seq<char>) -> Option<Seq<char>> {
    match object_match(name, 0) {
        Some((namespace, local)) => Some(decoded(namespace) + seq![':'] + decoded(local)),
        None => None,
    }
}

/// What the four groups of the pattern
/// `info%3Afedora%2F(.*)%3A(.*)%2F(.*)%2F(.*)` hold where the match starts
/// at `p`: the last two `%2F` of the line part datastream and version, and
/// the last `%3A` before them parts namespace and local name.
pub open spec fn datastream_match_at(s: Seq<char>, p: int) -> Option<
    (Seq<char>, Seq<char>, Seq<char>, Seq<char>),
> {
    if occurs_at(s, scheme(), p) {
        let start = p + scheme().len();
        let end = line_end(s, start);
        match last_occurrence(s, slash(), start, end) {
            Some(q3) => match last_occurrence(s, slash(), start, q3) {
                Some(q2) => match last_occurrence(s, colon(), start, q2) {
                    Some(q1) => Some(
                        (
                            s.subrange(start, q1),
                            s.subrange(q1 + 3, q2),
                            s.subrange(q2 + 3, q3),
                            s.subrange(q3 + 3, end),
                        ),
                    ),
                    None => None,
                },
                None => None,
            },
            None => None,
        }
    } else {
        None
    }
}

/// The groups of the leftmost match of the datastream pattern from `p` on.
pub open spec fn datastream_match(s: Seq<char>, p: int) -> Option<
    (Seq<char>, Seq<char>, Seq<char>, Seq<char>),
>
    decreases s.len() - p,
{
    if p < 0 || p >= s.len() {
        None
    } else {
        match datastream_match_at(s, p) {
            Some(groups) => Some(groups),
            None => datastream_match(s, p + 1),
        }
    }
}

/// The name under which an object of the given namespace and local name
/// lies in the object store, underscores written as `%5F`.
pub open spec fn object_file_name(namespace: Seq<char>, local: Seq<char>) -> Seq<char> {
    scheme() + encoded(namespace) + colon() + encoded(local)
}

/// `s` holds neither a percent sign nor a line feed.
pub open spec fn safe(s: Seq<char>) -> bool {
    forall|i: int| 0 <= i < s.len() ==> #[trigger] s[i] != '%' && s[i] != '\n'
}

/// `s` holds no line feed.
pub open spec fn one_line(s: Seq<char>) -> bool {
    forall|i: int| 0 <= i < s.len() ==> #[trigger] s[i] != '\n'
}

/// `part` stands nowhere in `s`.
pub open spec fn free_of(s: Seq<char>, part: Seq<char>) -> bool {
    forall|q: int| !occurs_at(s, part, q)
}

/// The line of a text without line feed ends where the text ends.
pub proof fn lemma_line_end_of_one_line(s: Seq<char>, from: int)
    requires
        one_line(s),
    ensures
        line_end(s, from) == s.len(),
    decreases s.len() - from,
{
    if 0 <= from < s.len() {
        lemma_line_end_of_one_line(s, from + 1);
    }
}

/// The last occurrence is the one behind which, up to `to`, there is no
/// other.
pub proof fn lemma_last_occurrence_is(s: Seq<char>, part: Seq<char>, from: int, to: int, q: int)
    requires
        part.len() > 0,
        from <= q,
        q + part.len() <= to,
        occurs_at(s, part, q),
        forall|j: int| q < j && j + part.len() <= to ==> !occurs_at(s, part, j),
    ensures
        last_occurrence(s, part, from, to) == Some(q),
    decreases to - from,
{
    if to - part.len() != q {
        lemma_last_occurrence_is(s, part, from, to - 1, q);
    }
}

/// Writing underscores as `%5F` and reading them back gives the text
/// itself, leaves it on one line, and brings no `%3A` into it.
pub proof fn lemma_encoded_safe(s: Seq<char>)
    requires
        safe(s),
    ensures
        decoded(encoded(s)) == s,
        one_line(encoded(s)),
        free_of(encoded(s), colon()),
        free_of(encoded(s), slash()),
    decreases s.len(),
{
    reveal_strlit("%5F");
    reveal_strlit("%3A");
    reveal_strlit("%2F");
    if s.len() > 0 {
        let rest = s.skip(1);
        assert(safe(rest)) by {
            assert forall|i: int| 0 <= i < rest.len() implies #[trigger] rest[i] != '%' && rest[i]
                != '\n' by {
                assert(rest[i] == s[i + 1]);
            }
        }
        lemma_encoded_safe(rest);
        let e = encoded(s);
        let tail = encoded(rest);
        assert(s.first() != '%' && s.first() != '\n');
        if s.first() == '_' {
            assert(e == underscore() + tail);
            assert(occurs_at(e, underscore(), 0)) by {
                assert(e.subrange(0, 3) =~= underscore());
            }
            assert(e.skip(3) =~= tail);
            assert(decoded(e) =~= s);
            assert forall|q: int| !occurs_at(e, colon(), q) by {
                if occurs_at(e, colon(), q) {
                    assert(e.subrange(q, q + 3)[0] == e[q]);
                    assert(e.subrange(q, q + 3)[1] == e[q + 1]);
                    if q >= 3 {
                        assert(tail.subrange(q - 3, q) =~= e.subrange(q, q + 3));
                        assert(occurs_at(tail, colon(), q - 3));
                    }
                }
            }
            assert forall|q: int| !occurs_at(e, slash(), q) by {
                if occurs_at(e, slash(), q) {
                    assert(e.subrange(q, q + 3)[0] == e[q]);
                    assert(e.subrange(q, q + 3)[1] == e[q + 1]);
                    if q >= 3 {
                        assert(tail.subrange(q - 3, q) =~= e.subrange(q, q + 3));
                        assert(occurs_at(tail, slash(), q - 3));
                    }
                }
            }
        } else {
            assert(e == seq![s.first()] + tail);
            assert(!occurs_at(e, underscore(), 0)) by {
                if occurs_at(e, underscore(), 0) {
                    assert(e.subrange(0, 3)[0] == e[0]);
                }
            }
            assert(e.skip(1) =~= tail);
            assert(e.first() == s.first());
            assert(decoded(e) =~= s);
            assert forall|q: int| !occurs_at(e, colon(), q) by {
                if occurs_at(e, colon(), q) {
                    assert(e.subrange(q, q + 3)[0] == e[q]);
                    if q >= 1 {
                        assert(tail.subrange(q - 1, q + 2) =~= e.subrange(q, q + 3));
                        assert(occurs_at(tail, colon(), q - 1));
                    }
                }
            }
            assert forall|q: int| !occurs_at(e, slash(), q) by {
                if occurs_at(e, slash(), q) {
                    assert(e.subrange(q, q + 3)[0] == e[q]);
                    if q >= 1 {
                        assert(tail.subrange(q - 1, q + 2) =~= e.subrange(q, q + 3));
                        assert(occurs_at(tail, slash(), q - 1));
                    }
                }
            }
        }
        assert forall|i: int| 0 <= i < e.len() implies #[trigger] e[i] != '\n' by {
            if s.first() == '_' {
                if i >= 3 {
                    assert(e[i] == tail[i - 3]);
                }
            } else {
                if i >= 1 {
                    assert(e[i] == tail[i - 1]);
                }
            }
        }
    }
}

/// The object pattern finds in `info%3Afedora%2F<a>%3A<b>` the two parts
/// `a` and `b`, wherever both are on one line and `b` holds no `%3A`.
pub proof fn lemma_object_match_of_parts(a: Seq<char>, b: Seq<char>)
    requires
        one_line(a),
        one_line(b),
        free_of(b, colon()),
    ensures
        object_match(scheme() + a + colon() + b, 0) == Some((a, b)),
{
    reveal_strlit("info%3Afedora%2F");
    reveal_strlit("%3A");
    let s = scheme() + a + colon() + b;
    let start = scheme().len() as int;
    let q = start + a.len();
    assert(s.subrange(0, start) =~= scheme());
    assert(occurs_at(s, scheme(), 0));
    assert(one_line(s)) by {
        assert forall|i: int| 0 <= i < s.len() implies #[trigger] s[i] != '\n' by {
            if i < start {
                assert(s[i] == scheme()[i]);
            } else if i < q {
                assert(s[i] == a[i - start]);
            } else if i < q + 3 {
                assert(s[i] == colon()[i - q]);
            } else {
                assert(s[i] == b[i - q - 3]);
            }
        }
    }
    lemma_line_end_of_one_line(s, start);
    assert(s.subrange(q, q + 3) =~= colon());
    assert(occurs_at(s, colon(), q));
    assert forall|j: int| q < j && j + 3 <= s.len() implies !occurs_at(s, colon(), j) by {
        if occurs_at(s, colon(), j) {
            assert(s.subrange(j, j + 3)[0] == s[j]);
            if j < q + 3 {
                assert(s[j] == colon()[j - q]);
            } else {
                assert(b.subrange(j - q - 3, j - q) =~= s.subrange(j, j + 3));
                assert(occurs_at(b, colon(), j - q - 3));
            }
        }
    }
    lemma_last_occurrence_is(s, colon(), start, s.len() as int, q);
    assert(s.subrange(start, q) =~= a);
    assert(s.subrange(q + 3, s.len() as int) =~= b);
}

/// The name under which an object lies in the object store gives back its
/// PID: for every namespace and local name without percent sign and line
/// feed, reading `%5F` back undoes writing it, and the object pattern
/// finds namespace and local name in the file name.
pub proof fn lemma_identifier_round_trip(namespace: Seq<char>, local: Seq<char>)
    requires
        safe(namespace),
        safe(local),
    ensures
        decoded(encoded(namespace)) == namespace,
        decoded(encoded(local)) == local,
        object_pid(object_file_name(namespace, local)) == Some(namespace + seq![':'] + local),
{
    lemma_encoded_safe(namespace);
    lemma_encoded_safe(local);
    lemma_object_match_of_parts(encoded(namespace), encoded(local));
}


/// A separator of three characters, of which only the first is a percent
/// sign.
pub open spec fn is_separator(part: Seq<char>) -> bool {
    part.len() == 3 && part[0] == '%' && part[1] != '%' && part[2] != '%'
}

/// A separator that stands at `q` is the last before `to`, wherever it
/// stands nowhere between its own end and `to`.
pub proof fn lemma_separator_is_last(s: Seq<char>, part: Seq<char>, from: int, q: int, to: int)
    requires
        is_separator(part),
        from <= q,
        q + 3 <= to <= s.len(),
        occurs_at(s, part, q),
        forall|j: int| q + 3 <= j && j + 3 <= to ==> !occurs_at(s, part, j),
    ensures
        last_occurrence(s, part, from, to) == Some(q),
{
    assert forall|j: int| q < j && j + part.len() <= to implies !occurs_at(s, part, j) by {
        if j < q + 3 && occurs_at(s, part, j) {
            assert(s.subrange(j, j + 3)[0] == s[j]);
            assert(s.subrange(q, q + 3)[j - q] == s[j]);
        }
    }
    lemma_last_occurrence_is(s, part, from, to, q);
}

/// Where a stretch of `s` is free of `part`, `part` stands nowhere within
/// the stretch.
pub proof fn lemma_free_stretch(s: Seq<char>, stretch: Seq<char>, at: int, part: Seq<char>)
    requires
        0 <= at,
        at + stretch.len() <= s.len(),
        s.subrange(at, at + stretch.len()) == stretch,
        free_of(stretch, part),
    ensures
        forall|j: int| at <= j && j + part.len() <= at + stretch.len() ==> !occurs_at(s, part, j),
{
    assert forall|j: int| at <= j && j + part.len() <= at + stretch.len() implies !occurs_at(
        s,
        part,
        j,
    ) by {
        if occurs_at(s, part, j) {
            assert(stretch.subrange(j - at, j - at + part.len()) =~= s.subrange(j, j + part.len()));
            assert(occurs_at(stretch, part, j - at));
        }
    }
}

/// The name under which a version of a datastream lies in the datastream
/// store, underscores written as `%5F`.
pub open spec fn datastream_file_name(
    namespace: Seq<char>,
    local: Seq<char>,
    dsid: Seq<char>,
    version: Seq<char>,
) -> Seq<char> {
    scheme() + encoded(namespace) + colon() + encoded(local) + slash() + encoded(dsid) + slash()
        + encoded(version)
}

/// The datastream pattern finds in
/// `info%3Afedora%2F<a>%3A<b>%2F<c>%2F<d>` the four parts, wherever all
/// are on one line, `b` holds no `%3A`, and `c` and `d` hold no `%2F`.
pub proof fn lemma_datastream_match_of_parts(a: Seq<char>, b: Seq<char>, c: Seq<char>, d: Seq<char>)
    requires
        one_line(a),
        one_line(b),
        one_line(c),
        one_line(d),
        free_of(b, colon()),
        free_of(c, slash()),
        free_of(d, slash()),
    ensures
        datastream_match(scheme() + a + colon() + b + slash() + c + slash() + d, 0) == Some(
            (a, b, c, d),
        ),
{
    reveal_strlit("info%3Afedora%2F");
    reveal_strlit("%3A");
    reveal_strlit("%2F");
    let s = scheme() + a + colon() + b + slash() + c + slash() + d;
    let start = scheme().len() as int;
    let q1 = start + a.len();
    let q2 = q1 + 3 + b.len();
    let q3 = q2 + 3 + c.len();
    let end = s.len() as int;
    assert(end == q3 + 3 + d.len());
    assert(s.subrange(0, start) =~= scheme());
    assert(occurs_at(s, scheme(), 0));
    assert(one_line(s)) by {
        assert forall|i: int| 0 <= i < s.len() implies #[trigger] s[i] != '\n' by {
            if i < start {
                assert(s[i] == scheme()[i]);
            } else if i < q1 {
                assert(s[i] == a[i - start]);
            } else if i < q1 + 3 {
                assert(s[i] == colon()[i - q1]);
            } else if i < q2 {
                assert(s[i] == b[i - q1 - 3]);
            } else if i < q2 + 3 {
                assert(s[i] == slash()[i - q2]);
            } else if i < q3 {
                assert(s[i] == c[i - q2 - 3]);
            } else if i < q3 + 3 {
                assert(s[i] == slash()[i - q3]);
            } else {
                assert(s[i] == d[i - q3 - 3]);
            }
        }
    }
    lemma_line_end_of_one_line(s, start);
    assert(s.subrange(q1, q1 + 3) =~= colon());
    assert(s.subrange(q2, q2 + 3) =~= slash());
    assert(s.subrange(q3, q3 + 3) =~= slash());
    assert(s.subrange(start, q1) =~= a);
    assert(s.subrange(q1 + 3, q2) =~= b);
    assert(s.subrange(q2 + 3, q3) =~= c);
    assert(s.subrange(q3 + 3, end) =~= d);
    lemma_free_stretch(s, d, q3 + 3, slash());
    lemma_separator_is_last(s, slash(), start, q3, end);
    lemma_free_stretch(s, c, q2 + 3, slash());
    lemma_separator_is_last(s, slash(), start, q2, q3);
    lemma_free_stretch(s, b, q1 + 3, colon());
    lemma_separator_is_last(s, colon(), start, q1, q2);
}

/// The name under which a version lies in the datastream store gives back
/// its identifier: for every namespace, local name, datastream and version
/// without percent sign and line feed, the datastream pattern finds the
/// four in the file name.
pub proof fn lemma_datastream_round_trip(
    namespace: Seq<char>,
    local: Seq<char>,
    dsid: Seq<char>,
    version: Seq<char>,
)
    requires
        safe(namespace),
        safe(local),
        safe(dsid),
        safe(version),
    ensures
        datastream_identifier(datastream_file_name(namespace, local, dsid, version)) == Some(
            DatastreamIdentifierView { pid: namespace + seq![':'] + local, dsid, version },
        ),
{
    lemma_encoded_safe(namespace);
    lemma_encoded_safe(local);
    lemma_encoded_safe(dsid);
    lemma_encoded_safe(version);
    lemma_datastream_match_of_parts(
        encoded(namespace),
        encoded(local),
        encoded(dsid),
        encoded(version),
    );
}

/// `s` with every `%5F` read as an underscore.
pub fn decode(s: &Vec<char>) -> (r: Vec<char>)
    ensures
        r@ == decoded(s@),
{
    let pattern = chars_of("%5F");
    let mut r: Vec<char> = Vec::new();
    let mut i: usize = 0;
    proof {
        reveal_strlit("%5F");
        assert(s@.skip(0) == s@);
    }
    while i < s.len()
        invariant
            i <= s.len(),
            pattern@ == underscore(),
            pattern@.len() == 3,
            decoded(s@) == r@ + decoded(s@.skip(i as int)),
        decreases s.len() - i,
    {
        let ghost rest = s@.skip(i as int);
        let found = has_at(s, &pattern, i);
        proof {
            if i + 3 <= s.len() {
                assert(rest.subrange(0, 3) =~= s@.subrange(i as int, i + 3));
            }
            assert(found == (rest.len() >= 3 && occurs_at(rest, underscore(), 0)));
        }
        if found {
            r.push('_');
            assert(rest.skip(3) =~= s@.skip(i + 3));
            i += 3;
        } else {
            r.push(s[i]);
            assert(rest.skip(1) =~= s@.skip(i + 1));
            i += 1;
        }
    }
    r
}

/// Where the line ends that holds position `from`.
pub fn find_line_end(s: &Vec<char>, from: usize) -> (r: usize)
    requires
        from <= s.len(),
    ensures
        r == line_end(s@, from as int),
        from <= r <= s.len(),
{
    let mut i: usize = from;
    while i < s.len() && s[i] != '\n'
        invariant
            from <= i <= s.len(),
            line_end(s@, from as int) == line_end(s@, i as int),
        decreases s.len() - i,
    {
        i += 1;
    }
    i
}

/// The last place at which `part` stands in `s` between `from` and `to`.
pub fn find_last(s: &Vec<char>, part: &Vec<char>, from: usize, to: usize) -> (r: Option<usize>)
    requires
        to <= s.len(),
    ensures
        match r {
            Some(q) => last_occurrence(s@, part@, from as int, to as int) == Some(q as int)
                && from <= q && q + part.len() <= to,
            None => last_occurrence(s@, part@, from as int, to as int) is None,
        },
{
    if part.len() == 0 {
        return None;
    }
    let mut t: usize = to;
    while t >= part.len() && t - part.len() >= from
        invariant
            t <= to <= s.len(),
            part.len() > 0,
            last_occurrence(s@, part@, from as int, to as int) == last_occurrence(
                s@,
                part@,
                from as int,
                t as int,
            ),
        decreases t,
    {
        if has_at(s, part, t - part.len()) {
            return Some(t - part.len());
        }
        t -= 1;
    }
    None
}

/// The groups of the leftmost match of the object pattern.
pub fn match_object(s: &Vec<char>) -> (r: Option<(Vec<char>, Vec<char>)>)
    ensures
        match r {
            Some(groups) => object_match(s@, 0) == Some((groups.0@, groups.1@)),
            None => object_match(s@, 0) is None,
        },
{
    let prefix = chars_of("info%3Afedora%2F");
    let separator = chars_of("%3A");
    proof {
        reveal_strlit("%3A");
    }
    let mut p: usize = 0;
    while p < s.len()
        invariant
            prefix@ == scheme(),
            separator@ == colon(),
            separator@.len() == 3,
            object_match(s@, 0) == object_match(s@, p as int),
        decreases s.len() - p,
    {
        if has_at(s, &prefix, p) {
            let start = p + prefix.len();
            let end = find_line_end(s, start);
            match find_last(s, &separator, start, end) {
                Some(q) => {
                    let namespace = slice_of(s, start, q);
                    let local = slice_of(s, q + 3, end);
                    return Some((namespace, local));
                },
                None => {},
            }
        }
        p += 1;
    }
    None
}

/// The groups of the leftmost match of the datastream pattern.
pub fn match_datastream(s: &Vec<char>) -> (r: Option<(Vec<char>, Vec<char>, Vec<char>, Vec<char>)>)
    ensures
        match r {
            Some(groups) => datastream_match(s@, 0) == Some(
                (groups.0@, groups.1@, groups.2@, groups.3@),
            ),
            None => datastream_match(s@, 0) is None,
        },
{
    let prefix = chars_of("info%3Afedora%2F");
    let separator = chars_of("%3A");
    let divider = chars_of("%2F");
    proof {
        reveal_strlit("%3A");
        reveal_strlit("%2F");
    }
    let mut p: usize = 0;
    while p < s.len()
        invariant
            prefix@ == scheme(),
            separator@ == colon(),
            divider@ == slash(),
            separator@.len() == 3,
            divider@.len() == 3,
            datastream_match(s@, 0) == datastream_match(s@, p as int),
        decreases s.len() - p,
    {
        if has_at(s, &prefix, p) {
            let start = p + prefix.len();
            let end = find_line_end(s, start);
            if let Some(q3) = find_last(s, &divider, start, end) {
                if let Some(q2) = find_last(s, &divider, start, q3) {
                    if let Some(q1) = find_last(s, &separator, start, q2) {
                        let namespace = slice_of(s, start, q1);
                        let local = slice_of(s, q1 + 3, q2);
                        let dsid = slice_of(s, q2 + 3, q3);
                        let version = slice_of(s, q3 + 3, end);
                        return Some((namespace, local, dsid, version));
                    }
                }
            }
        }
        p += 1;
    }
    None
}

/// The identifier of an object.
#[derive(Clone, Debug, PartialEq, Eq)]
pub struct ObjectIdentifier {
    pub pid: String,
}

/// The identifier of one version of a datastream.
#[derive(Clone, Debug, PartialEq, Eq)]
pub struct DatastreamIdentifier {
    pub pid: String,
    pub dsid: String,
    pub version: String,
}

/// A datastream identifier as plain mathematical values.
pub struct DatastreamIdentifierView {
    pub pid: Seq<char>,
    pub dsid: Seq<char>,
    pub version: Seq<char>,
}

impl View for DatastreamIdentifier {
    type V = DatastreamIdentifierView;

    open spec fn view(&self) -> DatastreamIdentifierView {
        DatastreamIdentifierView { pid: self.pid@, dsid: self.dsid@, version: self.version@ }
    }
}

/// The identifier that the name of a file of the datastream store holds.
pub open spec fn datastream_identifier(name: Seq<char>) -> Option<DatastreamIdentifierView> {
    match datastream_match(name, 0) {
        Some((namespace, local, dsid, version)) => Some(
            DatastreamIdentifierView {
                pid: decoded(namespace) + seq![':'] + decoded(local),
                dsid: decoded(dsid),
                version: decoded(version),
            },
        ),
        None => None,
    }
}

/// The PID that a path of the object store holds in its last component.
pub open spec fn object_pid_of_path(path: Seq<char>) -> Option<Seq<char>> {
    match path_file_name(path) {
        Some(name) => object_pid(name),
        None => None,
    }
}

/// The identifier that a path of the datastream store holds in its last
/// component.
pub open spec fn datastream_identifier_of_path(path: Seq<char>) -> Option<DatastreamIdentifierView> {
    match path_file_name(path) {
        Some(name) => datastream_identifier(name),
        None => None,
    }
}

impl DatastreamIdentifierView {
    /// How `self` stands to `other`: by PID, then by datastream, then by
    /// version, each in the alphanumeric order.
    pub open spec fn rank(self, other: DatastreamIdentifierView) -> Rank {
        if alphanumeric_rank(self.pid, other.pid) != Rank::Equal {
            alphanumeric_rank(self.pid, other.pid)
        } else if alphanumeric_rank(self.dsid, other.dsid) != Rank::Equal {
            alphanumeric_rank(self.dsid, other.dsid)
        } else {
            alphanumeric_rank(self.version, other.version)
        }
    }

    /// The place of the version below a directory:
    /// `<pid>/<dsid>/<version>`.
    pub open spec fn below(self, directory: Seq<char>) -> Seq<char> {
        joined(joined(joined(directory, self.pid), self.dsid), self.version)
    }
}

impl ObjectIdentifier {
    /// The identifier of the object whose file lies at `path` in the
    /// object store; `None` where the name of the file is none of an
    /// object.
    pub fn from_path(path: &str) -> (r: Option<ObjectIdentifier>)
        ensures
            match r {
                Some(identifier) => object_pid_of_path(path@) == Some(identifier.pid@),
                None => object_pid_of_path(path@) is None,
            },
    {
        let name = name_of(path)?;
        let (namespace, local) = match_object(&chars_of(name.as_str()))?;
        let mut pid = decode(&namespace);
        pid.push(':');
        let mut local = decode(&local);
        pid.append(&mut local);
        Some(ObjectIdentifier { pid: string_of(&pid) })
    }

    /// How `self` stands to `other` in the alphanumeric order of the PIDs.
    pub fn compare(&self, other: &ObjectIdentifier) -> (r: Rank)
        ensures
            r == alphanumeric_rank(self.pid@, other.pid@),
    {
        compare_str(self.pid.as_str(), other.pid.as_str())
    }
}

impl DatastreamIdentifier {
    /// The identifier of the version whose file lies at `path` in the
    /// datastream store; `None` where the name of the file is none of a
    /// version.
    pub fn from_path(path: &str) -> (r: Option<DatastreamIdentifier>)
        ensures
            match r {
                Some(identifier) => datastream_identifier_of_path(path@) == Some(identifier@),
                None => datastream_identifier_of_path(path@) is None,
            },
    {
        let name = name_of(path)?;
        let (namespace, local, dsid, version) = match_datastream(&chars_of(name.as_str()))?;
        let mut pid = decode(&namespace);
        pid.push(':');
        let mut local = decode(&local);
        let ghost local_name = local@;
        pid.append(&mut local);
        assert(pid@ =~= decoded(namespace@) + seq![':'] + local_name);
        Some(
            DatastreamIdentifier {
                pid: string_of(&pid),
                dsid: string_of(&decode(&dsid)),
                version: string_of(&decode(&version)),
            },
        )
    }

    /// The place of the version below `directory`.
    pub fn as_path(&self, directory: &str) -> (r: String)
        ensures
            r@ == self@.below(directory@),
    {
        let object = join(directory, self.pid.as_str());
        let datastream = join(object.as_str(), self.dsid.as_str());
        join(datastream.as_str(), self.version.as_str())
    }

    /// How `self` stands to `other`.
    pub fn compare(&self, other: &DatastreamIdentifier) -> (r: Rank)
        ensures
            r == self@.rank(other@),
    {
        let by_pid = compare_str(self.pid.as_str(), other.pid.as_str());
        if by_pid != Rank::Equal {
            return by_pid;
        }
        let by_dsid = compare_str(self.dsid.as_str(), other.dsid.as_str());
        if by_dsid != Rank::Equal {
            return by_dsid;
        }
        compare_str(self.version.as_str(), other.version.as_str())
    }

    /// `self` and `other` name the same version: PID, datastream and
    /// version are the same text.
    pub fn same(&self, other: &DatastreamIdentifier) -> (r: bool)
        ensures
            r == (self@ == other@),
    {
        self.pid.as_str().eq(other.pid.as_str()) && self.dsid.as_str().eq(other.dsid.as_str())
            && self.version.as_str().eq(other.version.as_str())
    }
}

} // verus!
