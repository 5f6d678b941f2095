use vstd::prelude::*;

use crate::records::ValueWithLocation;
use crate::records::RecordV;
use crate::records::rec_view;
use crate::records::recs_view;
use crate::records::layers_view;
use crate::records::clone_path;
use crate::records::clone_record;
use crate::records::path_eq;

verus! {

/// A pointless override: a value that repeats the value already established
/// for its path, either earlier in the same file or by an earlier layer.
#[derive(Debug, Clone)]
pub struct Override {
    pub file: String,
    pub path: Vec<String>,
    pub value: String,
    pub line: usize,
    pub previous_value: String,
    pub previous_file: String,
    pub previous_line: usize,
}

/// A duplicate key inside one file whose two occurrences carry different
/// values.
#[derive(Debug, Clone)]
pub struct DuplicateKeyWarning {
    pub file: String,
    pub path: Vec<String>,
    pub first_value: String,
    pub first_line: usize,
    pub second_value: String,
    pub second_line: usize,
}

/// Mathematical view of a pointless-override finding.
pub struct OverrideV {
    pub file: Seq<char>,
    pub path: Seq<Seq<char>>,
    pub value: Seq<char>,
    pub line: nat,
    pub previous_value: Seq<char>,
    pub previous_file: Seq<char>,
    pub previous_line: nat,
}

/// Mathematical view of a duplicate-key warning.
pub struct WarningV {
    pub file: Seq<char>,
    pub path: Seq<Seq<char>>,
    pub first_value: Seq<char>,
    pub first_line: nat,
    pub second_value: Seq<char>,
    pub second_line: nat,
}

pub open spec fn ov_view(o: Override) -> OverrideV {
    OverrideV {
        file: o.file@,
        path: o.path.deep_view(),
        value: o.value@,
        line: o.line as nat,
        previous_value: o.previous_value@,
        previous_file: o.previous_file@,
        previous_line: o.previous_line as nat,
    }
}

pub open spec fn ovs_view(os: Seq<Override>) -> Seq<OverrideV> {
    os.map_values(|o: Override| ov_view(o))
}

pub open spec fn warn_view(w: DuplicateKeyWarning) -> WarningV {
    WarningV {
        file: w.file@,
        path: w.path.deep_view(),
        first_value: w.first_value@,
        first_line: w.first_line as nat,
        second_value: w.second_value@,
        second_line: w.second_line as nat,
    }
}

pub open spec fn warns_view(ws: Seq<DuplicateKeyWarning>) -> Seq<WarningV> {
    ws.map_values(|w: DuplicateKeyWarning| warn_view(w))
}

/// The finding reported when record `r` repeats the value of `prev`.
pub open spec fn mk_override(r: RecordV, prev: RecordV) -> OverrideV {
    OverrideV {
        file: r.file,
        path: r.path,
        value: r.value,
        line: r.line,
        previous_value: prev.value,
        previous_file: prev.file,
        previous_line: prev.line,
    }
}

/// The warning reported when record `r` assigns a value different from the
/// one `prev` gave the same path in the same file.
pub open spec fn mk_warning(r: RecordV, prev: RecordV) -> WarningV {
    WarningV {
        file: r.file,
        path: r.path,
        first_value: prev.value,
        first_line: prev.line,
        second_value: r.value,
        second_line: r.line,
    }
}

/// The most recent record per path after walking `recs` in order: a later
/// occurrence of a path replaces an earlier one.
pub open spec fn intra_seen(recs: Seq<RecordV>) -> Map<Seq<Seq<char>>, RecordV>
    decreases recs.len(),
{
    if recs.len() == 0 {
        Map::empty()
    } else {
        intra_seen(recs.drop_last()).insert(recs.last().path, recs.last())
    }
}

/// The pointless overrides found inside one file: each record whose path was
/// seen before with the same value, compared against the most recent
/// occurrence.
pub open spec fn intra_pointless(recs: Seq<RecordV>) -> Seq<OverrideV>
    decreases recs.len(),
{
    if recs.len() == 0 {
        Seq::empty()
    } else {
        let prior = intra_pointless(recs.drop_last());
        let seen = intra_seen(recs.drop_last());
        let r = recs.last();
        if seen.contains_key(r.path) && seen[r.path].value == r.value {
            prior.push(mk_override(r, seen[r.path]))
        } else {
            prior
        }
    }
}

/// The duplicate-key warnings found inside one file: each record whose path
/// was seen before with a different value, compared against the most recent
/// occurrence.
pub open spec fn intra_warnings(recs: Seq<RecordV>) -> Seq<WarningV>
    decreases recs.len(),
{
    if recs.len() == 0 {
        Seq::empty()
    } else {
        let prior = intra_warnings(recs.drop_last());
        let seen = intra_seen(recs.drop_last());
        let r = recs.last();
        if seen.contains_key(r.path) && seen[r.path].value != r.value {
            prior.push(mk_warning(r, seen[r.path]))
        } else {
            prior
        }
    }
}

/// Intra-file pointless overrides of the whole chain, in file order.
pub open spec fn all_intra_pointless(layers: Seq<Seq<RecordV>>) -> Seq<OverrideV>
    decreases layers.len(),
{
    if layers.len() == 0 {
        Seq::empty()
    } else {
        all_intra_pointless(layers.drop_last()) + intra_pointless(layers.last())
    }
}

/// Intra-file duplicate-key warnings of the whole chain, in file order.
pub open spec fn all_intra_warnings(layers: Seq<Seq<RecordV>>) -> Seq<WarningV>
    decreases layers.len(),
{
    if layers.len() == 0 {
        Seq::empty()
    } else {
        all_intra_warnings(layers.drop_last()) + intra_warnings(layers.last())
    }
}

/// Applies one layer's records, in order, on top of an effective map.
pub open spec fn fold_layer(
    m: Map<Seq<Seq<char>>, RecordV>,
    recs: Seq<RecordV>,
) -> Map<Seq<Seq<char>>, RecordV>
    decreases recs.len(),
{
    if recs.len() == 0 {
        m
    } else {
        fold_layer(m, recs.drop_last()).insert(recs.last().path, recs.last())
    }
}

/// The effective snapshot before layer `i`: the last value established for
/// each path by layers `0..i`, later layers and later records winning.
pub open spec fn snapshot(layers: Seq<Seq<RecordV>>, i: int) -> Map<Seq<Seq<char>>, RecordV>
    decreases i,
{
    if i <= 0 {
        Map::empty()
    } else {
        fold_layer(snapshot(layers, i - 1), layers[i - 1])
    }
}

/// All records of layers `0..i`, concatenated in chain order.
pub open spec fn concat_layers(layers: Seq<Seq<RecordV>>, i: int) -> Seq<RecordV>
    decreases i,
{
    if i <= 0 {
        Seq::empty()
    } else {
        concat_layers(layers, i - 1) + layers[i - 1]
    }
}

/// The findings of checking one layer's records against a snapshot: a record
/// is flagged exactly when the snapshot holds its path with the same value.
pub open spec fn layer_pointless(
    snap: Map<Seq<Seq<char>>, RecordV>,
    recs: Seq<RecordV>,
) -> Seq<OverrideV>
    decreases recs.len(),
{
    if recs.len() == 0 {
        Seq::empty()
    } else {
        let prior = layer_pointless(snap, recs.drop_last());
        let r = recs.last();
        if snap.contains_key(r.path) && snap[r.path].value == r.value {
            prior.push(mk_override(r, snap[r.path]))
        } else {
            prior
        }
    }
}

/// The cross-layer findings of checking layers `1..i` each against the
/// snapshot of everything before it, in layer order.
pub open spec fn cross_layer_pointless(layers: Seq<Seq<RecordV>>, i: int) -> Seq<OverrideV>
    decreases i,
{
    if i <= 1 {
        Seq::empty()
    } else {
        cross_layer_pointless(layers, i - 1)
            + layer_pointless(snapshot(layers, i - 1), layers[i - 1])
    }
}

/// All pointless-override findings of a chain, in discovery order: intra-file
/// findings first, then cross-layer findings.
pub open spec fn pointless_spec(layers: Seq<Seq<RecordV>>) -> Seq<OverrideV> {
    all_intra_pointless(layers) + cross_layer_pointless(layers, layers.len() as int)
}

/// All duplicate-key warnings of a chain, in discovery order.
pub open spec fn warnings_spec(layers: Seq<Seq<RecordV>>) -> Seq<WarningV> {
    all_intra_warnings(layers)
}

/// The most recent record with path `p` decides `intra_seen` at `p`.
pub proof fn lemma_intra_seen_last_match(s: Seq<RecordV>, p: Seq<Seq<char>>, j: int)
    requires
        0 <= j < s.len(),
        s[j].path == p,
        forall|k: int| j < k < s.len() ==> s[k].path != p,
    ensures
        intra_seen(s).contains_key(p),
        intra_seen(s)[p] == s[j],
    decreases s.len(),
{
    if j == s.len() - 1 {
    } else {
        lemma_intra_seen_last_match(s.drop_last(), p, j);
    }
}

/// A path that no record carries is absent from `intra_seen`.
pub proof fn lemma_intra_seen_no_match(s: Seq<RecordV>, p: Seq<Seq<char>>)
    requires
        forall|k: int| 0 <= k < s.len() ==> s[k].path != p,
    ensures
        !intra_seen(s).contains_key(p),
    decreases s.len(),
{
    if s.len() == 0 {
    } else {
        lemma_intra_seen_no_match(s.drop_last(), p);
    }
}

/// Walking a concatenation equals folding the second part on top of the
/// first part's map.
pub proof fn lemma_intra_seen_concat(a: Seq<RecordV>, b: Seq<RecordV>)
    ensures
        intra_seen(a + b) == fold_layer(intra_seen(a), b),
    decreases b.len(),
{
    if b.len() == 0 {
        assert(a + b =~= a);
    } else {
        lemma_intra_seen_concat(a, b.drop_last());
        assert((a + b).drop_last() =~= a + b.drop_last());
        assert((a + b).last() == b.last());
    }
}

/// The snapshot before layer `i` is the most-recent-record map of all records
/// of layers `0..i` in chain order.
pub proof fn lemma_snapshot_concat(layers: Seq<Seq<RecordV>>, i: int)
    ensures
        snapshot(layers, i) == intra_seen(concat_layers(layers, i)),
    decreases i,
{
    if i <= 0 {
    } else {
        lemma_snapshot_concat(layers, i - 1);
        lemma_intra_seen_concat(concat_layers(layers, i - 1), layers[i - 1]);
    }
}

/// Folding a layer keeps a path's last writer within that layer.
proof fn lemma_fold_layer_last_match(
    m: Map<Seq<Seq<char>>, RecordV>,
    recs: Seq<RecordV>,
    p: Seq<Seq<char>>,
    k: int,
)
    requires
        0 <= k < recs.len(),
        recs[k].path == p,
        forall|k2: int| k < k2 < recs.len() ==> recs[k2].path != p,
    ensures
        fold_layer(m, recs).contains_key(p),
        fold_layer(m, recs)[p] == recs[k],
    decreases recs.len(),
{
    if k == recs.len() - 1 {
    } else {
        lemma_fold_layer_last_match(m, recs.drop_last(), p, k);
    }
}

/// Folding a layer that never writes a path leaves that path's entry alone.
proof fn lemma_fold_layer_no_match(
    m: Map<Seq<Seq<char>>, RecordV>,
    recs: Seq<RecordV>,
    p: Seq<Seq<char>>,
)
    requires
        forall|k: int| 0 <= k < recs.len() ==> recs[k].path != p,
    ensures
        fold_layer(m, recs).contains_key(p) == m.contains_key(p),
        m.contains_key(p) ==> fold_layer(m, recs)[p] == m[p],
    decreases recs.len(),
{
    if recs.len() == 0 {
    } else {
        lemma_fold_layer_no_match(m, recs.drop_last(), p);
    }
}

/// The effective snapshot before layer `j` holds, for a path, the record of
/// the path's last writer among layers `0..j`: the record at the latest
/// chain position before layer `j` that assigned the path.
pub proof fn lemma_snapshot_is_last_writer(layers: Seq<Seq<RecordV>>, j: int, f: int, k: int)
    requires
        0 <= f < j <= layers.len(),
        0 <= k < layers[f].len(),
        forall|k2: int| k < k2 < layers[f].len() ==> layers[f][k2].path != layers[f][k].path,
        forall|f2: int, k2: int|
            f < f2 < j && 0 <= k2 < layers[f2].len() ==> layers[f2][k2].path != layers[f][k].path,
    ensures
        snapshot(layers, j).contains_key(layers[f][k].path),
        snapshot(layers, j)[layers[f][k].path] == layers[f][k],
    decreases j,
{
    if j == f + 1 {
        lemma_fold_layer_last_match(snapshot(layers, f), layers[f], layers[f][k].path, k);
    } else {
        lemma_snapshot_is_last_writer(layers, j - 1, f, k);
        lemma_fold_layer_no_match(snapshot(layers, j - 1), layers[j - 1], layers[f][k].path);
    }
}

/// A record that repeats the value a snapshot holds for its path is flagged
/// by that layer's check.
proof fn lemma_layer_pointless_reported(
    snap: Map<Seq<Seq<char>>, RecordV>,
    recs: Seq<RecordV>,
    k: int,
)
    requires
        0 <= k < recs.len(),
        snap.contains_key(recs[k].path),
        snap[recs[k].path].value == recs[k].value,
    ensures
        layer_pointless(snap, recs).contains(mk_override(recs[k], snap[recs[k].path])),
    decreases recs.len(),
{
    if k == recs.len() - 1 {
        let found = layer_pointless(snap, recs);
        assert(found.last() == mk_override(recs[k], snap[recs[k].path]));
        assert(found.contains(mk_override(recs[k], snap[recs[k].path])));
    } else {
        lemma_layer_pointless_reported(snap, recs.drop_last(), k);
        let x = mk_override(recs[k], snap[recs[k].path]);
        let prior = layer_pointless(snap, recs.drop_last());
        let w = choose|w: int| 0 <= w < prior.len() && prior[w] == x;
        assert(layer_pointless(snap, recs)[w] == x);
        assert(layer_pointless(snap, recs).contains(x));
    }
}

/// The cross-layer findings up to `i` include every finding of checking a
/// layer `j < i`.
proof fn lemma_cross_layer_contains(layers: Seq<Seq<RecordV>>, i: int, j: int, x: OverrideV)
    requires
        1 <= j < i <= layers.len(),
        layer_pointless(snapshot(layers, j), layers[j]).contains(x),
    ensures
        cross_layer_pointless(layers, i).contains(x),
    decreases i,
{
    if j == i - 1 {
        let part = layer_pointless(snapshot(layers, j), layers[j]);
        let w = choose|w: int| 0 <= w < part.len() && part[w] == x;
        assert(cross_layer_pointless(layers, i)[cross_layer_pointless(layers, i - 1).len()
            + w] == x);
        assert(cross_layer_pointless(layers, i).contains(x));
    } else {
        lemma_cross_layer_contains(layers, i - 1, j, x);
        let prior = cross_layer_pointless(layers, i - 1);
        let w = choose|w: int| 0 <= w < prior.len() && prior[w] == x;
        assert(cross_layer_pointless(layers, i)[w] == x);
        assert(cross_layer_pointless(layers, i).contains(x));
    }
}

/// If a record of override layer `j` repeats the effective value for its
/// path, the analysis reports a pointless override for it, citing the
/// effective record — the path's last writer before layer `j`.
pub proof fn lemma_pointless_override_reported(layers: Seq<Seq<RecordV>>, j: int, k: int)
    requires
        1 <= j < layers.len(),
        0 <= k < layers[j].len(),
        snapshot(layers, j).contains_key(layers[j][k].path),
        snapshot(layers, j)[layers[j][k].path].value == layers[j][k].value,
    ensures
        pointless_spec(layers).contains(
            mk_override(layers[j][k], snapshot(layers, j)[layers[j][k].path]),
        ),
{
    let x = mk_override(layers[j][k], snapshot(layers, j)[layers[j][k].path]);
    lemma_layer_pointless_reported(snapshot(layers, j), layers[j], k);
    lemma_cross_layer_contains(layers, layers.len() as int, j, x);
    let cross = cross_layer_pointless(layers, layers.len() as int);
    let w = choose|w: int| 0 <= w < cross.len() && cross[w] == x;
    assert(pointless_spec(layers)[all_intra_pointless(layers).len() + w] == x);
    assert(pointless_spec(layers).contains(x));
}

/// Every finding of checking one layer against a snapshot repeats the
/// snapshot's value for its path.
pub proof fn lemma_layer_findings_match_snapshot(
    snap: Map<Seq<Seq<char>>, RecordV>,
    recs: Seq<RecordV>,
    x: OverrideV,
)
    requires
        layer_pointless(snap, recs).contains(x),
    ensures
        snap.contains_key(x.path),
        x.value == snap[x.path].value,
        x.previous_value == snap[x.path].value,
    decreases recs.len(),
{
    if recs.len() == 0 {
    } else {
        let prior = layer_pointless(snap, recs.drop_last());
        let found = layer_pointless(snap, recs);
        let w = choose|w: int| 0 <= w < found.len() && found[w] == x;
        if w < prior.len() {
            assert(prior[w] == x);
            assert(prior.contains(x));
            lemma_layer_findings_match_snapshot(snap, recs.drop_last(), x);
        } else {
            assert(x == mk_override(recs.last(), snap[recs.last().path]));
        }
    }
}

/// An assignment whose value differs from the effective value for its path
/// yields no cross-layer finding: no finding of its layer's check carries
/// its path together with its value.
pub proof fn lemma_differing_override_not_flagged(layers: Seq<Seq<RecordV>>, j: int, k: int)
    requires
        1 <= j < layers.len(),
        0 <= k < layers[j].len(),
        snapshot(layers, j).contains_key(layers[j][k].path) ==> snapshot(layers, j)[layers[j][k].path].value
            != layers[j][k].value,
    ensures
        forall|x: OverrideV|
            layer_pointless(snapshot(layers, j), layers[j]).contains(x) ==> !(x.path == layers[j][k].path
                && x.value == layers[j][k].value),
{
    assert forall|x: OverrideV|
        layer_pointless(snapshot(layers, j), layers[j]).contains(x) implies !(x.path
        == layers[j][k].path && x.value == layers[j][k].value) by {
        lemma_layer_findings_match_snapshot(snapshot(layers, j), layers[j], x);
    }
}

/// Analysis is deterministic: the same ordered record lists always yield the
/// same ordered findings.
pub proof fn lemma_analysis_deterministic(a: Seq<Seq<RecordV>>, b: Seq<Seq<RecordV>>)
    requires
        a == b,
    ensures
        pointless_spec(a) == pointless_spec(b),
        warnings_spec(a) == warnings_spec(b),
{
}

/// Looks a path up in an association list of records, returning the most
/// recently pushed entry with that path.
pub fn assoc_get<'a>(
    entries: &'a Vec<(Vec<String>, ValueWithLocation)>,
    path: &Vec<String>,
) -> (r: Option<&'a (Vec<String>, ValueWithLocation)>)
    ensures
        match r {
            Some(e) => intra_seen(recs_view(entries@)).contains_key(path.deep_view())
                && rec_view(*e) == intra_seen(recs_view(entries@))[path.deep_view()],
            None => !intra_seen(recs_view(entries@)).contains_key(path.deep_view()),
        },
{
    let ghost s = recs_view(entries@);
    let ghost p = path.deep_view();
    let mut i: usize = entries.len();
    while i > 0
        invariant
            i <= entries.len(),
            s == recs_view(entries@),
            p == path.deep_view(),
            forall|j: int| i <= j < s.len() ==> s[j].path != p,
        decreases i,
    {
        i = i - 1;
        if path_eq(&entries[i].0, path) {
            proof {
                lemma_intra_seen_last_match(s, p, i as int);
            }
            return Some(&entries[i]);
        }
    }
    proof {
        lemma_intra_seen_no_match(s, p);
    }
    None
}

/// Builds the finding for record `cur` repeating the value of `prev`.
fn make_override(
    cur: &(Vec<String>, ValueWithLocation),
    prev: &(Vec<String>, ValueWithLocation),
) -> (r: Override)
    ensures
        ov_view(r) == mk_override(rec_view(*cur), rec_view(*prev)),
{
    Override {
        file: cur.1.file.clone(),
        path: clone_path(&cur.0),
        value: cur.1.value.clone(),
        line: cur.1.line,
        previous_value: prev.1.value.clone(),
        previous_file: prev.1.file.clone(),
        previous_line: prev.1.line,
    }
}

/// Builds the warning for record `cur` contradicting the value of `prev`.
fn make_warning(
    cur: &(Vec<String>, ValueWithLocation),
    prev: &(Vec<String>, ValueWithLocation),
) -> (r: DuplicateKeyWarning)
    ensures
        warn_view(r) == mk_warning(rec_view(*cur), rec_view(*prev)),
{
    DuplicateKeyWarning {
        file: cur.1.file.clone(),
        path: clone_path(&cur.0),
        first_value: prev.1.value.clone(),
        first_line: prev.1.line,
        second_value: cur.1.value.clone(),
        second_line: cur.1.line,
    }
}

/// Finds every pointless override and every duplicate-key warning of an
/// ordered layer chain, in discovery order: intra-file findings of each file
/// in chain order first, then cross-layer findings of each override layer in
/// chain order.
pub fn find_pointless_overrides_and_warnings(
    all_values: &Vec<Vec<(Vec<String>, ValueWithLocation)>>,
) -> (r: (Vec<Override>, Vec<DuplicateKeyWarning>))
    ensures
        ovs_view(r.0@) == pointless_spec(layers_view(all_values@)),
        warns_view(r.1@) == warnings_spec(layers_view(all_values@)),
{
    let ghost layers = layers_view(all_values@);
    let mut pointless: Vec<Override> = Vec::new();
    let mut warnings: Vec<DuplicateKeyWarning> = Vec::new();

    let mut f: usize = 0;
    while f < all_values.len()
        invariant
            f <= all_values.len(),
            layers == layers_view(all_values@),
            ovs_view(pointless@) == all_intra_pointless(layers.take(f as int)),
            warns_view(warnings@) == all_intra_warnings(layers.take(f as int)),
        decreases all_values.len() - f,
    {
        let file_values = &all_values[f];
        let ghost frecs = layers[f as int];
        assert(frecs == recs_view(file_values@));
        let mut seen: Vec<(Vec<String>, ValueWithLocation)> = Vec::new();
        let mut k: usize = 0;
        while k < file_values.len()
            invariant
                k <= file_values.len(),
                layers == layers_view(all_values@),
                f < all_values.len(),
                frecs == layers[f as int],
                frecs == recs_view(file_values@),
                file_values == all_values@[f as int],
                recs_view(seen@) == frecs.take(k as int),
                ovs_view(pointless@) == all_intra_pointless(layers.take(f as int))
                    + intra_pointless(frecs.take(k as int)),
                warns_view(warnings@) == all_intra_warnings(layers.take(f as int))
                    + intra_warnings(frecs.take(k as int)),
            decreases file_values.len() - k,
        {
            let entry = &file_values[k];
            assert(rec_view(*entry) == frecs[k as int]);
            proof {
                assert(frecs.take(k as int + 1).drop_last() =~= frecs.take(k as int));
                assert(frecs.take(k as int + 1).last() == frecs[k as int]);
            }
            match assoc_get(&seen, &entry.0) {
                Some(prev) => {
                    if entry.1.value == prev.1.value {
                        let ghost old_p = pointless@;
                        pointless.push(make_override(entry, prev));
                        proof {
                            assert(ovs_view(pointless@) =~= ovs_view(old_p).push(
                                mk_override(rec_view(*entry), rec_view(*prev))));
                        }
                    } else {
                        let ghost old_w = warnings@;
                        warnings.push(make_warning(entry, prev));
                        proof {
                            assert(warns_view(warnings@) =~= warns_view(old_w).push(
                                mk_warning(rec_view(*entry), rec_view(*prev))));
                        }
                    }
                }
                None => {},
            }
            let ghost old_seen = seen@;
            seen.push(clone_record(entry));
            proof {
                assert(recs_view(seen@) =~= recs_view(old_seen).push(rec_view(*entry)));
                assert(recs_view(seen@) =~= frecs.take(k as int + 1));
            }
            k = k + 1;
        }
        proof {
            assert(frecs.take(file_values@.len() as int) =~= frecs);
            assert(layers.take(f as int + 1).drop_last() =~= layers.take(f as int));
            assert(layers.take(f as int + 1).last() == frecs);
        }
        f = f + 1;
    }
    proof {
        assert(layers.take(all_values@.len() as int) =~= layers);
    }

    if all_values.len() >= 2 {
        let mut i: usize = 1;
        while i < all_values.len()
            invariant
                1 <= i <= all_values.len(),
                layers == layers_view(all_values@),
                ovs_view(pointless@) == all_intra_pointless(layers)
                    + cross_layer_pointless(layers, i as int),
                warns_view(warnings@) == all_intra_warnings(layers),
            decreases all_values.len() - i,
        {
            let mut effective: Vec<(Vec<String>, ValueWithLocation)> = Vec::new();
            let mut f2: usize = 0;
            while f2 < i
                invariant
                    f2 <= i,
                    i < all_values.len(),
                    layers == layers_view(all_values@),
                    recs_view(effective@) == concat_layers(layers, f2 as int),
                decreases i - f2,
            {
                let file_values = &all_values[f2];
                let ghost frecs = layers[f2 as int];
                let mut k: usize = 0;
                while k < file_values.len()
                    invariant
                        k <= file_values.len(),
                        f2 < i <= all_values.len(),
                        layers == layers_view(all_values@),
                        frecs == layers[f2 as int],
                        file_values == all_values@[f2 as int],
                        frecs == recs_view(file_values@),
                        recs_view(effective@) == concat_layers(layers, f2 as int)
                            + frecs.take(k as int),
                    decreases file_values.len() - k,
                {
                    let ghost old_eff = effective@;
                    effective.push(clone_record(&file_values[k]));
                    proof {
                        assert(recs_view(effective@) =~= recs_view(old_eff).push(
                            rec_view(file_values@[k as int])));
                        assert(frecs.take(k as int + 1) =~= frecs.take(k as int).push(
                            frecs[k as int]));
                        assert(recs_view(effective@) =~= concat_layers(layers, f2 as int)
                            + frecs.take(k as int + 1));
                    }
                    k = k + 1;
                }
                proof {
                    assert(frecs.take(file_values@.len() as int) =~= frecs);
                    assert(recs_view(effective@) =~= concat_layers(layers, f2 as int + 1));
                }
                f2 = f2 + 1;
            }
            proof {
                lemma_snapshot_concat(layers, i as int);
            }
            let ghost snap = snapshot(layers, i as int);
            assert(snap == intra_seen(recs_view(effective@)));

            let current = &all_values[i];
            let ghost crecs = layers[i as int];
            let mut k: usize = 0;
            while k < current.len()
                invariant
                    k <= current.len(),
                    1 <= i < all_values.len(),
                    layers == layers_view(all_values@),
                    crecs == layers[i as int],
                    current == all_values@[i as int],
                    crecs == recs_view(current@),
                    snap == intra_seen(recs_view(effective@)),
                    snap == snapshot(layers, i as int),
                    ovs_view(pointless@) == all_intra_pointless(layers)
                        + cross_layer_pointless(layers, i as int)
                        + layer_pointless(snap, crecs.take(k as int)),
                    warns_view(warnings@) == all_intra_warnings(layers),
                decreases current.len() - k,
            {
                let entry = &current[k];
                assert(rec_view(*entry) == crecs[k as int]);
                proof {
                    assert(crecs.take(k as int + 1).drop_last() =~= crecs.take(k as int));
                    assert(crecs.take(k as int + 1).last() == crecs[k as int]);
                }
                match assoc_get(&effective, &entry.0) {
                    Some(prev) => {
                        if entry.1.value == prev.1.value {
                            let ghost old_p = pointless@;
                            pointless.push(make_override(entry, prev));
                            proof {
                                assert(ovs_view(pointless@) =~= ovs_view(old_p).push(
                                    mk_override(rec_view(*entry), rec_view(*prev))));
                            }
                        }
                    }
                    None => {},
                }
                k = k + 1;
            }
            proof {
                assert(crecs.take(current@.len() as int) =~= crecs);
            }
            i = i + 1;
        }
    } else {
        proof {
            assert(cross_layer_pointless(layers, layers.len() as int) =~= Seq::<OverrideV>::empty());
        }
    }
    proof {
        assert(ovs_view(pointless@) == pointless_spec(layers));
        assert(warns_view(warnings@) == warnings_spec(layers));
    }
    (pointless, warnings)
}

} // verus!
