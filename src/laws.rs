use vstd::prelude::*;

use crate::collector::{keys_unique, log_view, not_live_named, not_log_named, same_key, CollectorView, LogView};
use crate::record::RecordView;

verus! {

/// The key of a record's live row: producer and type.
pub open spec fn key(r: RecordView) -> (u8, u8, Seq<char>) {
    (r.system_id, r.component_id, r.name)
}

/// Keys of the records of `rs` whose type is in `types`.
pub open spec fn live_keys(rs: Seq<RecordView>, types: Set<Seq<char>>) -> Set<(u8, u8, Seq<char>)> {
    Set::new(
        |k: (u8, u8, Seq<char>)|
            exists|j: int| #![trigger rs[j]] 0 <= j < rs.len() && types.contains(rs[j].name) && key(rs[j]) == k,
    )
}

/// Index of the last record of `r`'s key in `rs`, or -1.
pub open spec fn last_key(rs: Seq<RecordView>, r: RecordView) -> int
    decreases rs.len(),
{
    if rs.len() == 0 {
        -1
    } else if same_key(rs.last(), r) {
        rs.len() - 1
    } else {
        last_key(rs.drop_last(), r)
    }
}

pub open spec fn of_log_type(types: Set<Seq<char>>) -> spec_fn(RecordView) -> bool {
    |r: RecordView| !types.contains(r.name)
}

pub open spec fn log_views(rs: Seq<RecordView>) -> Seq<LogView> {
    rs.map_values(|r: RecordView| log_view(r))
}

proof fn lemma_filter_push<A>(s: Seq<A>, x: A, pred: spec_fn(A) -> bool)
    ensures
        s.push(x).filter(pred) == (if pred(x) {
            s.filter(pred).push(x)
        } else {
            s.filter(pred)
        }),
{
    reveal(Seq::filter);
    assert(s.push(x).drop_last() =~= s);
}

proof fn lemma_last_key_push(rs: Seq<RecordView>, r: RecordView, x: RecordView)
    ensures
        last_key(rs.push(r), x) == (if same_key(r, x) { rs.len() as int } else { last_key(rs, x) }),
{
    assert(rs.push(r).drop_last() =~= rs);
}

/// Index of the first record of `r`'s key in `rs`, or -1.
pub open spec fn first_key(rs: Seq<RecordView>, r: RecordView) -> int
    decreases rs.len(),
{
    if rs.len() == 0 {
        -1
    } else {
        let f = first_key(rs.drop_last(), r);
        if f >= 0 {
            f
        } else if same_key(rs.last(), r) {
            rs.len() - 1
        } else {
            -1
        }
    }
}

proof fn lemma_first_key_push(rs: Seq<RecordView>, r: RecordView, x: RecordView)
    ensures
        first_key(rs.push(r), x) == (if first_key(rs, x) >= 0 {
            first_key(rs, x)
        } else if same_key(r, x) {
            rs.len() as int
        } else {
            -1
        }),
{
    assert(rs.push(r).drop_last() =~= rs);
}

proof fn lemma_first_key_bounds(rs: Seq<RecordView>, x: RecordView)
    ensures
        -1 <= first_key(rs, x) < rs.len(),
    decreases rs.len(),
{
    if rs.len() > 0 {
        lemma_first_key_bounds(rs.drop_last(), x);
    }
}

/// Records of one key share their first index.
proof fn lemma_first_key_same(rs: Seq<RecordView>, x: RecordView, y: RecordView)
    requires
        same_key(x, y),
    ensures
        first_key(rs, x) == first_key(rs, y),
    decreases rs.len(),
{
    if rs.len() > 0 {
        lemma_first_key_same(rs.drop_last(), x, y);
    }
}

proof fn lemma_first_key_none(rs: Seq<RecordView>, x: RecordView)
    requires
        forall|j: int| 0 <= j < rs.len() ==> !same_key(#[trigger] rs[j], x),
    ensures
        first_key(rs, x) == -1,
    decreases rs.len(),
{
    if rs.len() > 0 {
        let t = rs.drop_last();
        assert forall|j: int| 0 <= j < t.len() implies !same_key(#[trigger] t[j], x) by {
            assert(t[j] == rs[j]);
        }
        lemma_first_key_none(t, x);
        assert(!same_key(rs[rs.len() - 1], x));
    }
}

/// What a run of ingests from an empty live table leaves: the live types
/// unchanged, unique keys, each live row of a live type and equal to the
/// latest record of its key, a row for every key of a live type, and the log
/// extended by the records of the other types.
proof fn lemma_push_all(c: CollectorView, rs: Seq<RecordView>)
    requires
        c.live.len() == 0,
    ensures
        c.push_all(rs).live_types == c.live_types,
        keys_unique(c.push_all(rs).live),
        forall|i: int| #![trigger c.push_all(rs).live[i]] 0 <= i < c.push_all(rs).live.len() ==> {
            &&& c.live_types.contains(c.push_all(rs).live[i].name)
            &&& 0 <= last_key(rs, c.push_all(rs).live[i]) < rs.len()
            &&& c.push_all(rs).live[i] == rs[last_key(rs, c.push_all(rs).live[i])]
        },
        forall|j: int| #![trigger rs[j]] 0 <= j < rs.len() && c.live_types.contains(rs[j].name) ==>
            exists|i: int| 0 <= i < c.push_all(rs).live.len() && same_key(#[trigger] c.push_all(rs).live[i], rs[j]),
        c.push_all(rs).log == c.log + log_views(rs.filter(of_log_type(c.live_types))),
    decreases rs.len(),
{
    let types = c.live_types;
    let p = of_log_type(types);
    if rs.len() == 0 {
        assert(rs.filter(p) =~= Seq::<RecordView>::empty()) by {
            reveal(Seq::filter);
        }
        assert(c.log + log_views(rs.filter(p)) =~= c.log);
        assert(c.push_all(rs) == c);
        return;
    }
    let rs0 = rs.drop_last();
    let r = rs.last();
    let n = rs.len() - 1;
    lemma_push_all(c, rs0);
    let d0 = c.push_all(rs0);
    let d = c.push_all(rs);
    assert(d == d0.after_push(r));
    assert(rs =~= rs0.push(r));
    lemma_filter_push(rs0, r, p);
    assert forall|j: int| 0 <= j < n implies rs[j] == #[trigger] rs0[j] by {}
    assert forall|x: RecordView| #[trigger] last_key(rs, x) == (if same_key(r, x) { n } else { last_key(rs0, x) }) by {
        lemma_last_key_push(rs0, r, x);
    }
    if types.contains(r.name) {
        assert(rs.filter(p) == rs0.filter(p));
        if exists|i: int| 0 <= i < d0.live.len() && same_key(#[trigger] d0.live[i], r) {
            let i0 = choose|i: int| 0 <= i < d0.live.len() && same_key(#[trigger] d0.live[i], r);
            assert(d.live == d0.live.update(i0, r));
            assert forall|i: int, j: int|
                0 <= i < d.live.len() && 0 <= j < d.live.len() && same_key(d.live[i], d.live[j]) implies i == j by {
                if i != i0 && j == i0 {
                    assert(same_key(d0.live[i], d0.live[i0]));
                } else if i == i0 && j != i0 {
                    assert(same_key(d0.live[j], d0.live[i0]));
                }
            }
            assert forall|i: int| #![trigger d.live[i]] 0 <= i < d.live.len() implies {
                &&& types.contains(d.live[i].name)
                &&& 0 <= last_key(rs, d.live[i]) < rs.len()
                &&& d.live[i] == rs[last_key(rs, d.live[i])]
            } by {
                if i != i0 {
                    assert(d.live[i] == d0.live[i]);
                    assert(!same_key(r, d0.live[i])) by {
                        if same_key(r, d0.live[i]) {
                            assert(same_key(d0.live[i], d0.live[i0]));
                        }
                    }
                    assert(rs[last_key(rs0, d0.live[i])] == rs0[last_key(rs0, d0.live[i])]);
                }
            }
            assert forall|j: int| #![trigger rs[j]] 0 <= j < rs.len() && types.contains(rs[j].name) implies
                exists|i: int| 0 <= i < d.live.len() && same_key(#[trigger] d.live[i], rs[j]) by {
                if j == n {
                    assert(same_key(d.live[i0], rs[j]));
                } else {
                    assert(types.contains(rs0[j].name));
                    let i = choose|i: int| 0 <= i < d0.live.len() && same_key(#[trigger] d0.live[i], rs0[j]);
                    assert(same_key(d.live[i], rs[j]));
                }
            }
        } else {
            assert(d.live == d0.live.push(r));
            assert forall|i: int, j: int|
                0 <= i < d.live.len() && 0 <= j < d.live.len() && same_key(d.live[i], d.live[j]) implies i == j by {
                if i < d0.live.len() && j == d0.live.len() {
                    assert(same_key(d0.live[i], r));
                } else if j < d0.live.len() && i == d0.live.len() {
                    assert(same_key(d0.live[j], r));
                } else if i < d0.live.len() && j < d0.live.len() {
                    assert(same_key(d0.live[i], d0.live[j]));
                }
            }
            assert forall|i: int| #![trigger d.live[i]] 0 <= i < d.live.len() implies {
                &&& types.contains(d.live[i].name)
                &&& 0 <= last_key(rs, d.live[i]) < rs.len()
                &&& d.live[i] == rs[last_key(rs, d.live[i])]
            } by {
                if i < d0.live.len() {
                    assert(d.live[i] == d0.live[i]);
                    assert(!same_key(d0.live[i], r));
                    assert(rs[last_key(rs0, d0.live[i])] == rs0[last_key(rs0, d0.live[i])]);
                }
            }
            assert forall|j: int| #![trigger rs[j]] 0 <= j < rs.len() && types.contains(rs[j].name) implies
                exists|i: int| 0 <= i < d.live.len() && same_key(#[trigger] d.live[i], rs[j]) by {
                if j == n {
                    assert(same_key(d.live[d0.live.len() as int], rs[j]));
                } else {
                    assert(types.contains(rs0[j].name));
                    let i = choose|i: int| 0 <= i < d0.live.len() && same_key(#[trigger] d0.live[i], rs0[j]);
                    assert(same_key(d.live[i], rs[j]));
                }
            }
        }
        assert(d.log == d0.log);
    } else {
        assert(d.live == d0.live);
        assert(d.log == d0.log.push(log_view(r)));
        assert(rs.filter(p) == rs0.filter(p).push(r));
        assert(log_views(rs0.filter(p).push(r)) =~= log_views(rs0.filter(p)).push(log_view(r)));
        assert(c.log + log_views(rs.filter(p)) =~= (c.log + log_views(rs0.filter(p))).push(log_view(r)));
        assert forall|i: int| #![trigger d.live[i]] 0 <= i < d.live.len() implies {
            &&& types.contains(d.live[i].name)
            &&& 0 <= last_key(rs, d.live[i]) < rs.len()
            &&& d.live[i] == rs[last_key(rs, d.live[i])]
        } by {
            assert(d.live[i] == d0.live[i]);
            assert(!same_key(r, d0.live[i]));
            assert(rs[last_key(rs0, d0.live[i])] == rs0[last_key(rs0, d0.live[i])]);
        }
        assert forall|j: int| #![trigger rs[j]] 0 <= j < rs.len() && types.contains(rs[j].name) implies
            exists|i: int| 0 <= i < d.live.len() && same_key(#[trigger] d.live[i], rs[j]) by {
            assert(types.contains(rs0[j].name));
            let i = choose|i: int| 0 <= i < d0.live.len() && same_key(#[trigger] d0.live[i], rs0[j]);
            assert(same_key(d.live[i], rs[j]));
        }
    }
}

/// The live rows left by a run of ingests from an empty live table stand in
/// the order in which their keys first occur.
proof fn lemma_push_all_order(c: CollectorView, rs: Seq<RecordView>)
    requires
        c.live.len() == 0,
    ensures
        forall|i: int| #![trigger c.push_all(rs).live[i]] 0 <= i < c.push_all(rs).live.len() ==>
            0 <= first_key(rs, c.push_all(rs).live[i]),
        forall|i: int, k: int| #![trigger c.push_all(rs).live[i], c.push_all(rs).live[k]]
            0 <= i < k < c.push_all(rs).live.len() ==>
            first_key(rs, c.push_all(rs).live[i]) < first_key(rs, c.push_all(rs).live[k]),
    decreases rs.len(),
{
    if rs.len() == 0 {
        assert(c.push_all(rs) == c);
        return;
    }
    let types = c.live_types;
    let rs0 = rs.drop_last();
    let r = rs.last();
    let n = rs.len() - 1;
    lemma_push_all_order(c, rs0);
    lemma_push_all(c, rs0);
    let d0 = c.push_all(rs0);
    let d = c.push_all(rs);
    assert(d == d0.after_push(r));
    assert(rs =~= rs0.push(r));
    assert forall|x: RecordView| #[trigger] first_key(rs, x) == (if first_key(rs0, x) >= 0 {
        first_key(rs0, x)
    } else if same_key(r, x) {
        n
    } else {
        -1
    }) by {
        lemma_first_key_push(rs0, r, x);
    }
    assert forall|x: RecordView| #[trigger] first_key(rs0, x) < n by {
        lemma_first_key_bounds(rs0, x);
    }
    if types.contains(r.name) {
        if exists|i: int| 0 <= i < d0.live.len() && same_key(#[trigger] d0.live[i], r) {
            let i0 = choose|i: int| 0 <= i < d0.live.len() && same_key(#[trigger] d0.live[i], r);
            assert(d.live == d0.live.update(i0, r));
            lemma_first_key_same(rs0, r, d0.live[i0]);
            assert forall|i: int| 0 <= i < d.live.len() implies #[trigger] first_key(rs, d.live[i])
                == first_key(rs0, d0.live[i]) by {
                assert(0 <= first_key(rs0, d0.live[i]));
            }
            assert forall|i: int, k: int| #![trigger d.live[i], d.live[k]] 0 <= i < k < d.live.len() implies
                first_key(rs, d.live[i]) < first_key(rs, d.live[k]) by {
                assert(first_key(rs0, d0.live[i]) < first_key(rs0, d0.live[k]));
                assert(first_key(rs, d.live[i]) == first_key(rs0, d0.live[i]));
                assert(first_key(rs, d.live[k]) == first_key(rs0, d0.live[k]));
            }
        } else {
            assert(d.live == d0.live.push(r));
            assert forall|j: int| 0 <= j < rs0.len() implies !same_key(#[trigger] rs0[j], r) by {
                if same_key(rs0[j], r) {
                    assert(types.contains(rs0[j].name));
                    let i = choose|i: int| 0 <= i < d0.live.len() && same_key(#[trigger] d0.live[i], rs0[j]);
                    assert(same_key(d0.live[i], r));
                }
            }
            lemma_first_key_none(rs0, r);
            assert forall|i: int| 0 <= i < d.live.len() implies #[trigger] first_key(rs, d.live[i])
                == if i < d0.live.len() { first_key(rs0, d0.live[i]) } else { n } by {
                if i < d0.live.len() {
                    assert(0 <= first_key(rs0, d0.live[i]));
                }
            }
            assert forall|i: int, k: int| #![trigger d.live[i], d.live[k]] 0 <= i < k < d.live.len() implies
                first_key(rs, d.live[i]) < first_key(rs, d.live[k]) by {
                assert(first_key(rs, d.live[i]) == first_key(rs0, d0.live[i]));
                if k < d0.live.len() {
                    assert(first_key(rs0, d0.live[i]) < first_key(rs0, d0.live[k]));
                    assert(first_key(rs, d.live[k]) == first_key(rs0, d0.live[k]));
                }
            }
        }
    } else {
        assert(d.live == d0.live);
        assert forall|i: int| 0 <= i < d.live.len() implies #[trigger] first_key(rs, d.live[i])
            == first_key(rs0, d0.live[i]) by {
            assert(0 <= first_key(rs0, d0.live[i]));
        }
        assert forall|i: int, k: int| #![trigger d.live[i], d.live[k]] 0 <= i < k < d.live.len() implies
            first_key(rs, d.live[i]) < first_key(rs, d.live[k]) by {
            assert(first_key(rs0, d0.live[i]) < first_key(rs0, d0.live[k]));
            assert(first_key(rs, d.live[i]) == first_key(rs0, d0.live[i]));
            assert(first_key(rs, d.live[k]) == first_key(rs0, d0.live[k]));
        }
    }
}

/// Ingesting a run of records into an empty live table leaves exactly one
/// live row per distinct producer and type among the records of live types,
/// each equal to the latest record of its key, in the order in which the keys
/// first occur.
pub proof fn law_live_rows(c: CollectorView, rs: Seq<RecordView>)
    requires
        c.live.len() == 0,
    ensures
        c.push_all(rs).live.len() == live_keys(rs, c.live_types).len(),
        forall|i: int| #![trigger c.push_all(rs).live[i]] 0 <= i < c.push_all(rs).live.len() ==> {
            &&& 0 <= last_key(rs, c.push_all(rs).live[i]) < rs.len()
            &&& c.push_all(rs).live[i] == rs[last_key(rs, c.push_all(rs).live[i])]
        },
        forall|i: int, k: int| #![trigger c.push_all(rs).live[i], c.push_all(rs).live[k]]
            0 <= i < k < c.push_all(rs).live.len() ==>
            0 <= first_key(rs, c.push_all(rs).live[i]) < first_key(rs, c.push_all(rs).live[k]),
{
    lemma_push_all(c, rs);
    lemma_push_all_order(c, rs);
    let d = c.push_all(rs);
    let types = c.live_types;
    let ks = d.live.map_values(|r: RecordView| key(r));
    assert forall|i: int, j: int| 0 <= i < ks.len() && 0 <= j < ks.len() && i != j implies ks[i] != ks[j] by {
        if ks[i] == ks[j] {
            assert(same_key(d.live[i], d.live[j]));
        }
    }
    assert(ks.no_duplicates());
    ks.unique_seq_to_set();
    assert forall|k: (u8, u8, Seq<char>)| ks.to_set().contains(k) <==> live_keys(rs, types).contains(k) by {
        if ks.to_set().contains(k) {
            let i = choose|i: int| 0 <= i < ks.len() && ks[i] == k;
            let j = last_key(rs, d.live[i]);
            assert(d.live[i] == rs[j]);
            assert(key(rs[j]) == k);
        }
        if live_keys(rs, types).contains(k) {
            let j = choose|j: int| #![trigger rs[j]] 0 <= j < rs.len() && types.contains(rs[j].name) && key(rs[j]) == k;
            let i = choose|i: int| 0 <= i < d.live.len() && same_key(#[trigger] d.live[i], rs[j]);
            assert(ks[i] == k);
        }
    }
    assert(ks.to_set() =~= live_keys(rs, types));
}

/// Ingesting a run of records, from any state, appends to the log exactly
/// the records whose type is not live, in arrival order, and leaves the live
/// types as they are.
pub proof fn law_log_rows(c: CollectorView, rs: Seq<RecordView>)
    ensures
        c.push_all(rs).live_types == c.live_types,
        c.push_all(rs).log == c.log + log_views(rs.filter(of_log_type(c.live_types))),
    decreases rs.len(),
{
    let p = of_log_type(c.live_types);
    if rs.len() == 0 {
        assert(rs.filter(p) =~= Seq::<RecordView>::empty()) by {
            reveal(Seq::filter);
        }
        assert(c.log + log_views(rs.filter(p)) =~= c.log);
        assert(c.push_all(rs) == c);
        return;
    }
    let rs0 = rs.drop_last();
    let r = rs.last();
    law_log_rows(c, rs0);
    let d0 = c.push_all(rs0);
    assert(c.push_all(rs) == d0.after_push(r));
    assert(rs =~= rs0.push(r));
    lemma_filter_push(rs0, r, p);
    if !c.live_types.contains(r.name) {
        assert(log_views(rs0.filter(p).push(r)) =~= log_views(rs0.filter(p)).push(log_view(r)));
        assert(c.log + log_views(rs.filter(p)) =~= (c.log + log_views(rs0.filter(p))).push(log_view(r)));
    }
}

/// Moving a live type to the log drops every live row of that type, its next
/// record is appended to the log, and moving it back restores the live types.
pub proof fn law_toggle_to_log(c: CollectorView, name: Seq<char>, r: RecordView)
    requires
        c.live_types.contains(name),
        r.name == name,
    ensures
        forall|i: int| 0 <= i < c.after_toggle(name, true).live.len() ==>
            (#[trigger] c.after_toggle(name, true).live[i]).name != name,
        !c.after_toggle(name, true).live_types.contains(name),
        c.after_toggle(name, true).after_push(r).log == c.after_toggle(name, true).log.push(log_view(r)),
        c.after_toggle(name, true).after_push(r).live == c.after_toggle(name, true).live,
        c.after_toggle(name, true).after_toggle(name, false).live_types == c.live_types,
{
    let d = c.after_toggle(name, true);
    assert forall|i: int| 0 <= i < d.live.len() implies (#[trigger] d.live[i]).name != name by {
        c.live.lemma_filter_pred(not_live_named(name), i);
    }
    assert(d.after_toggle(name, false).live_types =~= c.live_types);
}

/// Moving a log type to the live table drops every log row of that type, and
/// its next record starts a live row under a fresh key.
pub proof fn law_toggle_to_live(c: CollectorView, name: Seq<char>, r: RecordView)
    requires
        c.consistent(),
        !c.live_types.contains(name),
        r.name == name,
    ensures
        forall|i: int| 0 <= i < c.after_toggle(name, false).log.len() ==>
            (#[trigger] c.after_toggle(name, false).log[i]).name != name,
        c.after_toggle(name, false).live_types.contains(name),
        c.after_toggle(name, false).after_push(r).live == c.after_toggle(name, false).live.push(r),
        c.after_toggle(name, false).after_push(r).log == c.after_toggle(name, false).log,
{
    let d = c.after_toggle(name, false);
    assert forall|i: int| 0 <= i < d.log.len() implies (#[trigger] d.log[i]).name != name by {
        c.log.lemma_filter_pred(not_log_named(name), i);
    }
    assert forall|i: int| 0 <= i < d.live.len() implies !same_key(#[trigger] d.live[i], r) by {
        assert(c.live_types.contains(c.live[i].name));
    }
}

} // verus!
