use vstd::prelude::*;

verus! {

/// A serialized value found in a document, with its source location.
#[derive(Debug, Clone)]
pub struct ValueWithLocation {
    pub value: String,
    pub file: String,
    pub line: usize,
}

/// Mathematical view of one flattened record: the dotted path, the serialized
/// value, and where the value was found.
pub struct RecordV {
    pub path: Seq<Seq<char>>,
    pub value: Seq<char>,
    pub file: Seq<char>,
    pub line: nat,
}

/// The view of one record as the flattener produces it: a path paired with a
/// located value.
pub open spec fn rec_view(r: (Vec<String>, ValueWithLocation)) -> RecordV {
    RecordV {
        path: r.0.deep_view(),
        value: r.1.value@,
        file: r.1.file@,
        line: r.1.line as nat,
    }
}

/// The view of one file's record list, in traversal order.
pub open spec fn recs_view(rs: Seq<(Vec<String>, ValueWithLocation)>) -> Seq<RecordV> {
    rs.map_values(|r: (Vec<String>, ValueWithLocation)| rec_view(r))
}

/// The view of a whole layer chain: one record list per file, base first.
pub open spec fn layers_view(ls: Seq<Vec<(Vec<String>, ValueWithLocation)>>) -> Seq<Seq<RecordV>> {
    ls.map_values(|l: Vec<(Vec<String>, ValueWithLocation)>| recs_view(l@))
}

/// Copies a path segment by segment.
pub fn clone_path(p: &Vec<String>) -> (r: Vec<String>)
    ensures
        r.deep_view() == p.deep_view(),
{
    let mut r: Vec<String> = Vec::new();
    let mut i: usize = 0;
    while i < p.len()
        invariant
            i <= p.len(),
            r.deep_view() =~= p.deep_view().take(i as int),
        decreases p.len() - i,
    {
        let ghost r_old = r.deep_view();
        r.push(p[i].clone());
        proof {
            assert(r.deep_view() =~= r_old.push(p.deep_view()[i as int]));
            assert(p.deep_view().take(i as int + 1) =~= r.deep_view());
        }
        i = i + 1;
    }
    proof {
        assert(r.deep_view() =~= p.deep_view());
    }
    r
}

/// Copies one record, keeping its view.
pub fn clone_record(e: &(Vec<String>, ValueWithLocation)) -> (r: (Vec<String>, ValueWithLocation))
    ensures
        rec_view(r) == rec_view(*e),
{
    let path = clone_path(&e.0);
    let v = ValueWithLocation { value: e.1.value.clone(), file: e.1.file.clone(), line: e.1.line };
    (path, v)
}

/// Compares two paths segment by segment.
pub fn path_eq(a: &Vec<String>, b: &Vec<String>) -> (r: bool)
    ensures
        r == (a.deep_view() == b.deep_view()),
{
    if a.len() != b.len() {
        proof {
            assert(a.deep_view().len() != b.deep_view().len());
        }
        return false;
    }
    let mut i: usize = 0;
    while i < a.len()
        invariant
            i <= a.len(),
            a.len() == b.len(),
            forall|j: int| 0 <= j < i ==> a.deep_view()[j] == b.deep_view()[j],
        decreases a.len() - i,
    {
        if !(a[i] == b[i]) {
            proof {
                assert(a.deep_view()[i as int] != b.deep_view()[i as int]);
            }
            return false;
        }
        i = i + 1;
    }
    proof {
        assert(a.deep_view() =~= b.deep_view());
    }
    true
}

} // verus!
