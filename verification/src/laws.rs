//! The store's laws: what the contracts of create, insert, select,
//! update and delete jointly guarantee about any table driven through
//! the store, stated over the ghost table model and proved once for
//! every record type.

use vstd::prelude::*;
use vstd::seq_lib::group_filter_ensures;

use crate::model::{
    delete_effect, matching_payloads, row_matches, spec_row_of, update_effect, DbRow,
};
use crate::traits::Storable;
use crate::value::DbValue;

verus! {

/// The row is the stored form of some representable record.
pub open spec fn stored_record<T: Storable>(r: DbRow) -> bool {
    exists|m: T::V| T::wf(m) && r == #[trigger] spec_row_of::<T>(m)
}

/// Every row of the table is the stored form of some representable
/// record — true of every table driven only through the store, since
/// `create_table` makes it empty and `insert`/`update` only ever add
/// such rows.
pub open spec fn table_holds<T: Storable>(rows: Seq<DbRow>) -> bool {
    forall|j: int| 0 <= j < rows.len() ==> stored_record::<T>(#[trigger] rows[j])
}

/// No predicates match every row.
proof fn lemma_empty_preds_match(r: DbRow)
    ensures
        row_matches(r, Seq::empty(), Seq::empty()),
{
}

/// After a delete, no remaining row matches the predicates that drove
/// it, and a delete with no predicates empties the table.
pub proof fn lemma_delete_removes_matches(
    rows: Seq<DbRow>,
    names: Seq<Seq<char>>,
    vals: Seq<DbValue>,
)
    ensures
        forall|i: int|
            0 <= i < delete_effect(rows, names, vals).len() ==> !row_matches(
                #[trigger] delete_effect(rows, names, vals)[i],
                names,
                vals,
            ),
        names.len() == 0 ==> delete_effect(rows, names, vals) == Seq::<DbRow>::empty(),
{
    broadcast use group_filter_ensures;

    let keep = |r: DbRow| !row_matches(r, names, vals);
    if names.len() == 0 {
        assert(rows.all(|r: DbRow| !keep(r))) by {
            assert forall|i: int| 0 <= i < rows.len() implies !keep(rows[i]) by {
                lemma_empty_preds_match(rows[i]);
            }
        }
        rows.lemma_all_neg_filter_empty(keep);
        assert(delete_effect(rows, names, vals) =~= Seq::<DbRow>::empty());
    }
}

/// Inserting a record into an empty table and then selecting with no
/// predicates returns exactly that record: whenever the select
/// contract relates returned records `rm` to the one-row table, `rm`
/// is the one inserted record.
pub proof fn lemma_insert_then_select<T: Storable>(t: T::V, rm: Seq<T::V>)
    requires
        T::wf(t),
        forall|i: int| 0 <= i < rm.len() ==> T::wf(#[trigger] rm[i]),
        rm.map_values(|m: T::V| T::encoded(m)).to_multiset() == matching_payloads(
            Seq::<DbRow>::empty().push(spec_row_of::<T>(t)),
            Seq::empty(),
            Seq::empty(),
        ).to_multiset(),
    ensures
        rm == seq![t],
{
    let rows = Seq::<DbRow>::empty().push(spec_row_of::<T>(t));
    let p = |r: DbRow| row_matches(r, Seq::empty(), Seq::empty());
    reveal(Seq::filter);
    assert(Seq::<DbRow>::empty().filter(p) =~= Seq::<DbRow>::empty());
    Seq::<DbRow>::empty().lemma_filter_push(spec_row_of::<T>(t), p);
    lemma_empty_preds_match(spec_row_of::<T>(t));
    assert(rows.filter(p) =~= seq![spec_row_of::<T>(t)]);
    let single = seq![T::encoded(t)];
    assert(matching_payloads(rows, Seq::empty(), Seq::empty()) =~= single);
    let enc = rm.map_values(|m: T::V| T::encoded(m));
    enc.to_multiset_ensures();
    single.to_multiset_ensures();
    assert(enc.len() == 1);
    assert(rm.len() == 1);
    assert(enc.contains(enc[0]));
    assert(single.to_multiset().count(enc[0]) > 0);
    assert(single.contains(enc[0]));
    assert(T::encoded(rm[0]) == T::encoded(t));
    T::codec_round_trip(t);
    T::codec_round_trip(rm[0]);
    assert(rm[0] == t);
    assert(rm =~= seq![t]);
}

/// A filtered select returns only records whose stored row matches
/// every predicate, exactly as many records as rows match, and every
/// matching stored row is represented among them: predicate filtering
/// is intersection over the predicate list, never union.
pub proof fn lemma_select_filters<T: Storable>(
    rows: Seq<DbRow>,
    names: Seq<Seq<char>>,
    vals: Seq<DbValue>,
    rm: Seq<T::V>,
)
    requires
        table_holds::<T>(rows),
        forall|i: int| 0 <= i < rm.len() ==> T::wf(#[trigger] rm[i]),
        rm.map_values(|m: T::V| T::encoded(m)).to_multiset() == matching_payloads(
            rows,
            names,
            vals,
        ).to_multiset(),
    ensures
        rm.len() == rows.filter(|r: DbRow| row_matches(r, names, vals)).len(),
        forall|i: int|
            0 <= i < rm.len() ==> row_matches(spec_row_of::<T>(#[trigger] rm[i]), names, vals),
        forall|j: int|
            0 <= j < rows.len() && row_matches(#[trigger] rows[j], names, vals) ==> exists|i: int|
                0 <= i < rm.len() && spec_row_of::<T>(rm[i]) == rows[j],
{
    let p = |r: DbRow| row_matches(r, names, vals);
    let fr = rows.filter(p);
    let mp = fr.map_values(|r: DbRow| r.payload);
    let enc = rm.map_values(|m: T::V| T::encoded(m));
    broadcast use group_filter_ensures;

    enc.to_multiset_ensures();
    mp.to_multiset_ensures();
    assert(rm.len() == fr.len());
    assert forall|i: int| 0 <= i < rm.len() implies row_matches(
        spec_row_of::<T>(#[trigger] rm[i]),
        names,
        vals,
    ) by {
        assert(enc[i] == T::encoded(rm[i]));
        assert(enc.contains(enc[i]));
        assert(mp.to_multiset().count(enc[i]) > 0);
        assert(mp.contains(enc[i]));
        let k = choose|k: int| 0 <= k < mp.len() && mp[k] == enc[i];
        let rowk = fr[k];
        assert(p(rowk));
        assert(rowk.payload == enc[i]);
        assert(fr.contains(rowk));
        lemma_filter_in_source(rows, p, rowk);
        let j = choose|j: int| 0 <= j < rows.len() && rows[j] == rowk;
        assert(stored_record::<T>(rows[j]));
        let m2 = choose|m: T::V| T::wf(m) && rows[j] == spec_row_of::<T>(m);
        assert(T::encoded(m2) == T::encoded(rm[i]));
        T::codec_round_trip(m2);
        T::codec_round_trip(rm[i]);
        assert(m2 == rm[i]);
        assert(spec_row_of::<T>(rm[i]) == rowk);
    }
    assert forall|j: int|
        0 <= j < rows.len() && row_matches(#[trigger] rows[j], names, vals) implies exists|i: int|
        0 <= i < rm.len() && spec_row_of::<T>(rm[i]) == rows[j] by {
        assert(fr.contains(rows[j]));
        let k = choose|k: int| 0 <= k < fr.len() && fr[k] == rows[j];
        assert(mp[k] == rows[j].payload);
        assert(mp.contains(mp[k]));
        assert(enc.to_multiset().count(mp[k]) > 0);
        assert(enc.contains(mp[k]));
        let i = choose|i: int| 0 <= i < enc.len() && enc[i] == mp[k];
        assert(stored_record::<T>(rows[j]));
        let m2 = choose|m: T::V| T::wf(m) && rows[j] == spec_row_of::<T>(m);
        assert(rows[j].payload == T::encoded(m2));
        assert(T::encoded(rm[i]) == T::encoded(m2));
        T::codec_round_trip(m2);
        T::codec_round_trip(rm[i]);
        assert(rm[i] == m2);
        assert(spec_row_of::<T>(rm[i]) == rows[j]);
    }
}

/// An element of a filtered sequence comes from the source sequence.
proof fn lemma_filter_in_source<A>(s: Seq<A>, p: spec_fn(A) -> bool, x: A)
    requires
        s.filter(p).contains(x),
    ensures
        s.contains(x),
    decreases s.len(),
{
    reveal(Seq::filter);
    if s.len() > 0 {
        if s.filter(p) == s.drop_last().filter(p) {
            lemma_filter_in_source(s.drop_last(), p, x);
            assert(s.drop_last().contains(x));
            let j = choose|j: int| 0 <= j < s.drop_last().len() && s.drop_last()[j] == x;
            assert(s[j] == x);
        } else {
            let sub = s.drop_last().filter(p);
            assert(s.filter(p) == sub.push(s.last()));
            if x == s.last() {
                assert(s[s.len() - 1] == x);
            } else {
                let k = choose|k: int| 0 <= k < sub.push(s.last()).len() && sub.push(s.last())[k]
                    == x;
                assert(sub[k] == x);
                assert(sub.contains(x));
                lemma_filter_in_source(s.drop_last(), p, x);
                let j = choose|j: int| 0 <= j < s.drop_last().len() && s.drop_last()[j] == x;
                assert(s[j] == x);
            }
        }
    }
}

/// The rows after an update, filtered by predicates the replacement
/// row satisfies while no untouched row does: one copy of the
/// replacement row per row the update matched.  Filtered by
/// predicates the replacement does not satisfy and only replaced rows
/// did: nothing.
proof fn lemma_update_filter(
    rows: Seq<DbRow>,
    on: Seq<Seq<char>>,
    ov: Seq<DbValue>,
    nn: Seq<Seq<char>>,
    nv: Seq<DbValue>,
    new_row: DbRow,
)
    requires
        row_matches(new_row, nn, nv),
        !row_matches(new_row, on, ov),
        forall|j: int|
            0 <= j < rows.len() && row_matches(#[trigger] rows[j], nn, nv) ==> row_matches(
                rows[j],
                on,
                ov,
            ),
    ensures
        update_effect(rows, on, ov, new_row).filter(|r: DbRow| row_matches(r, nn, nv)) == Seq::new(
            rows.filter(|r: DbRow| row_matches(r, on, ov)).len() as nat,
            |i: int| new_row,
        ),
        update_effect(rows, on, ov, new_row).filter(|r: DbRow| row_matches(r, on, ov))
            == Seq::<DbRow>::empty(),
    decreases rows.len(),
{
    let pold = |r: DbRow| row_matches(r, on, ov);
    let pnew = |r: DbRow| row_matches(r, nn, nv);
    let repl = |r: DbRow|
        if row_matches(r, on, ov) {
            new_row
        } else {
            r
        };
    reveal(Seq::filter);
    if rows.len() == 0 {
        assert(update_effect(rows, on, ov, new_row) =~= Seq::<DbRow>::empty());
        assert(update_effect(rows, on, ov, new_row).filter(pnew) =~= Seq::new(
            rows.filter(pold).len() as nat,
            |i: int| new_row,
        ));
        assert(update_effect(rows, on, ov, new_row).filter(pold) =~= Seq::<DbRow>::empty());
    } else {
        let init = rows.drop_last();
        let last = rows.last();
        assert(forall|j: int|
            0 <= j < init.len() && row_matches(#[trigger] init[j], nn, nv) ==> row_matches(
                init[j],
                on,
                ov,
            )) by {
            assert(forall|j: int| 0 <= j < init.len() ==> init[j] == rows[j]);
        }
        lemma_update_filter(init, on, ov, nn, nv, new_row);
        assert(update_effect(rows, on, ov, new_row) =~= update_effect(init, on, ov, new_row).push(
            repl(last),
        ));
        update_effect(init, on, ov, new_row).lemma_filter_push(repl(last), pnew);
        update_effect(init, on, ov, new_row).lemma_filter_push(repl(last), pold);
        init.lemma_filter_push(last, pold);
        assert(init.push(last) =~= rows);
        let kold = init.filter(pold).len();
        if pold(last) {
            assert(repl(last) == new_row);
            assert(rows.filter(pold).len() == kold + 1);
            assert(update_effect(rows, on, ov, new_row).filter(pnew) =~= Seq::new(
                (kold + 1) as nat,
                |i: int| new_row,
            ));
            assert(update_effect(rows, on, ov, new_row).filter(pold) =~= Seq::<DbRow>::empty());
        } else {
            assert(repl(last) == last);
            assert(rows.len() - 1 < rows.len() && rows[rows.len() - 1] == last);
            assert(!pnew(last));
            assert(rows.filter(pold).len() == kold);
            assert(update_effect(rows, on, ov, new_row).filter(pnew) =~= Seq::new(
                kold as nat,
                |i: int| new_row,
            ));
            assert(update_effect(rows, on, ov, new_row).filter(pold) =~= Seq::<DbRow>::empty());
        }
    }
}

/// After replacing the one row that matched the old predicates with
/// the row of record `t2` — whose row matches the new predicates but
/// not the old ones, while no stored row other than replaced ones
/// matches the new — a select by the new predicates returns exactly
/// `t2`, and a select by the old predicates returns nothing.
pub proof fn lemma_update_then_select<T: Storable>(
    rows: Seq<DbRow>,
    on: Seq<Seq<char>>,
    ov: Seq<DbValue>,
    nn: Seq<Seq<char>>,
    nv: Seq<DbValue>,
    t2: T::V,
    rm_new: Seq<T::V>,
    rm_old: Seq<T::V>,
)
    requires
        T::wf(t2),
        rows.filter(|r: DbRow| row_matches(r, on, ov)).len() == 1,
        row_matches(spec_row_of::<T>(t2), nn, nv),
        !row_matches(spec_row_of::<T>(t2), on, ov),
        forall|j: int|
            0 <= j < rows.len() && row_matches(#[trigger] rows[j], nn, nv) ==> row_matches(
                rows[j],
                on,
                ov,
            ),
        forall|i: int| 0 <= i < rm_new.len() ==> T::wf(#[trigger] rm_new[i]),
        rm_new.map_values(|m: T::V| T::encoded(m)).to_multiset() == matching_payloads(
            update_effect(rows, on, ov, spec_row_of::<T>(t2)),
            nn,
            nv,
        ).to_multiset(),
        rm_old.map_values(|m: T::V| T::encoded(m)).to_multiset() == matching_payloads(
            update_effect(rows, on, ov, spec_row_of::<T>(t2)),
            on,
            ov,
        ).to_multiset(),
    ensures
        rm_new == seq![t2],
        rm_old == Seq::<T::V>::empty(),
{
    let new_row = spec_row_of::<T>(t2);
    lemma_update_filter(rows, on, ov, nn, nv, new_row);
    let pnew = |r: DbRow| row_matches(r, nn, nv);
    let pold = |r: DbRow| row_matches(r, on, ov);
    let after = update_effect(rows, on, ov, new_row);
    assert(after.filter(pnew) == Seq::new(1nat, |i: int| new_row));
    assert(Seq::new(1nat, |i: int| new_row) =~= seq![new_row]);
    let single = seq![T::encoded(t2)];
    assert(matching_payloads(after, nn, nv) =~= single);
    let enc = rm_new.map_values(|m: T::V| T::encoded(m));
    enc.to_multiset_ensures();
    single.to_multiset_ensures();
    assert(enc.len() == 1);
    assert(rm_new.len() == 1);
    assert(enc.contains(enc[0]));
    assert(single.to_multiset().count(enc[0]) > 0);
    assert(single.contains(enc[0]));
    assert(T::encoded(rm_new[0]) == T::encoded(t2));
    T::codec_round_trip(t2);
    T::codec_round_trip(rm_new[0]);
    assert(rm_new[0] == t2);
    assert(rm_new =~= seq![t2]);
    assert(matching_payloads(after, on, ov) =~= Seq::<Seq<u8>>::empty());
    let enc_old = rm_old.map_values(|m: T::V| T::encoded(m));
    enc_old.to_multiset_ensures();
    Seq::<Seq<u8>>::empty().to_multiset_ensures();
    assert(enc_old.len() == 0);
    assert(rm_old =~= Seq::<T::V>::empty());
}

/// A fresh table holds no rows, so the table invariant holds of it.
pub proof fn lemma_table_holds_empty<T: Storable>()
    ensures
        table_holds::<T>(Seq::<DbRow>::empty()),
{
}

/// Inserting the row of a representable record preserves the table
/// invariant.
pub proof fn lemma_table_holds_insert<T: Storable>(rows: Seq<DbRow>, m: T::V)
    requires
        table_holds::<T>(rows),
        T::wf(m),
    ensures
        table_holds::<T>(rows.push(spec_row_of::<T>(m))),
{
    let rows2 = rows.push(spec_row_of::<T>(m));
    assert forall|j: int| 0 <= j < rows2.len() implies stored_record::<T>(#[trigger] rows2[j]) by {
        if j < rows.len() {
            assert(rows2[j] == rows[j]);
            assert(stored_record::<T>(rows[j]));
        } else {
            assert(T::wf(m) && rows2[j] == spec_row_of::<T>(m));
        }
    }
}

/// A full-row replace with a representable record preserves the
/// table invariant.
pub proof fn lemma_table_holds_update<T: Storable>(
    rows: Seq<DbRow>,
    names: Seq<Seq<char>>,
    vals: Seq<DbValue>,
    m: T::V,
)
    requires
        table_holds::<T>(rows),
        T::wf(m),
    ensures
        table_holds::<T>(update_effect(rows, names, vals, spec_row_of::<T>(m))),
{
    let rows2 = update_effect(rows, names, vals, spec_row_of::<T>(m));
    assert forall|j: int| 0 <= j < rows2.len() implies stored_record::<T>(#[trigger] rows2[j]) by {
        if row_matches(rows[j], names, vals) {
            assert(T::wf(m) && rows2[j] == spec_row_of::<T>(m));
        } else {
            assert(rows2[j] == rows[j]);
            assert(stored_record::<T>(rows[j]));
        }
    }
}

/// A delete preserves the table invariant: every remaining row was
/// already stored.
pub proof fn lemma_table_holds_delete<T: Storable>(
    rows: Seq<DbRow>,
    names: Seq<Seq<char>>,
    vals: Seq<DbValue>,
)
    requires
        table_holds::<T>(rows),
    ensures
        table_holds::<T>(delete_effect(rows, names, vals)),
{
    let keep = |r: DbRow| !row_matches(r, names, vals);
    let rows2 = delete_effect(rows, names, vals);
    assert forall|j: int| 0 <= j < rows2.len() implies stored_record::<T>(#[trigger] rows2[j]) by {
        assert(rows2.contains(rows2[j]));
        lemma_filter_in_source(rows, keep, rows2[j]);
        let k = choose|k: int| 0 <= k < rows.len() && rows[k] == rows2[j];
        assert(stored_record::<T>(rows[k]));
    }
}

} // verus!
