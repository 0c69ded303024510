//! Properties that relate the functions of the library to one another.
use vstd::prelude::*;

use crate::archive::{archive_records, archive_valid, concat, entry_sizes, is_largest_first, lists, records_in_order};
use crate::entry::{entry_records, entry_table, entry_valid};
use crate::record::{address_from_cells, cells_valid, Address};
use crate::table::row_cells;

verus! {

proof fn lemma_concat_push(s: Seq<Seq<Address>>, x: Seq<Address>)
    ensures
        concat(s.push(x)) == concat(s) + x,
{
    assert(s.push(x).drop_last() =~= s);
}

proof fn lemma_concat_prepend(x: Seq<Address>, s: Seq<Seq<Address>>)
    ensures
        concat(seq![x] + s) == x + concat(s),
    decreases s.len(),
{
    if s.len() == 0 {
        assert(seq![x] + s =~= seq![x]);
        assert(concat(s) == Seq::<Address>::empty());
        assert(concat(seq![x]) == concat(seq![x].drop_last()) + seq![x].last());
        assert(seq![x].drop_last() =~= Seq::<Seq<Address>>::empty());
        assert(seq![x].last() == x);
        assert(Seq::<Address>::empty() + x =~= x);
        assert(x + Seq::<Address>::empty() =~= x);
    } else {
        lemma_concat_prepend(x, s.drop_last());
        assert((seq![x] + s).drop_last() =~= seq![x] + s.drop_last());
        assert((seq![x] + s).last() == s.last());
        assert(concat(seq![x] + s) == concat(seq![x] + s.drop_last()) + s.last());
        assert(concat(s) == concat(s.drop_last()) + s.last());
        assert(x + concat(s.drop_last()) + s.last() =~= x + (concat(s.drop_last()) + s.last()));
    }
}

proof fn lemma_concat_append(a: Seq<Seq<Address>>, b: Seq<Seq<Address>>)
    ensures
        concat(a + b) == concat(a) + concat(b),
    decreases b.len(),
{
    if b.len() == 0 {
        assert(a + b =~= a);
        assert(concat(a) + Seq::<Address>::empty() =~= concat(a));
    } else {
        lemma_concat_append(a, b.drop_last());
        assert((a + b).drop_last() =~= a + b.drop_last());
        assert((a + b).last() == b.last());
        assert(concat(a) + concat(b.drop_last()) + b.last() =~= concat(a) + (concat(b.drop_last()) + b.last()));
    }
}

proof fn lemma_concat_remove(s: Seq<Seq<Address>>, p: int)
    requires
        0 <= p < s.len(),
    ensures
        concat(s).to_multiset() == concat(s.remove(p)).to_multiset().add(s[p].to_multiset()),
{
    let front = s.subrange(0, p);
    let back = s.subrange(p + 1, s.len() as int);
    assert(s =~= front + seq![s[p]] + back);
    assert(s.remove(p) =~= front + back);
    lemma_concat_append(front + seq![s[p]], back);
    lemma_concat_append(front, seq![s[p]]);
    lemma_concat_append(front, back);
    lemma_concat_prepend(s[p], Seq::empty());
    assert(seq![s[p]] + Seq::<Seq<Address>>::empty() =~= seq![s[p]]);
    assert(s[p] + Seq::<Address>::empty() =~= s[p]);
    let (f, m, k) = (concat(front), s[p], concat(back));
    vstd::seq_lib::lemma_multiset_commutative(f + m, k);
    vstd::seq_lib::lemma_multiset_commutative(f, m);
    vstd::seq_lib::lemma_multiset_commutative(f, k);
    assert((f + m).to_multiset().add(k.to_multiset()) =~= f.to_multiset().add(k.to_multiset()).add(
        m.to_multiset(),
    ));
}

/// `order` lists each index below `n` exactly once.
pub open spec fn lists_each_once(order: Seq<usize>, n: int) -> bool {
    &&& order.len() == n
    &&& forall|j: int| 0 <= j < order.len() ==> order[j] < n
    &&& forall|j: int, k: int| 0 <= j < k < order.len() ==> order[j] != order[k]
    &&& forall|m: int| 0 <= m < n ==> #[trigger] lists(order, m)
}

/// The records of the entries taken in the order `order`.
pub open spec fn in_order(per_entry: Seq<Seq<Address>>, order: Seq<usize>) -> Seq<Seq<Address>> {
    Seq::new(order.len(), |j: int| per_entry[order[j] as int])
}

/// Whatever order the entries of an archive are read in, as long as each is
/// read once, the same records come out, as many times each.
pub proof fn entry_order_keeps_records(per_entry: Seq<Seq<Address>>, order: Seq<usize>)
    requires
        lists_each_once(order, per_entry.len() as int),
    ensures
        concat(in_order(per_entry, order)).to_multiset() == concat(per_entry).to_multiset(),
    decreases per_entry.len(),
{
    let n = per_entry.len() as int;
    if n > 0 {
        assert(lists(order, n - 1));
        let p = choose|j: int| 0 <= j < order.len() && order[j] == n - 1;
        let rest = order.remove(p);
        let init = per_entry.drop_last();
        assert forall|m: int| 0 <= m < n - 1 implies #[trigger] lists(rest, m) by {
            assert(lists(order, m));
            let j = choose|j: int| 0 <= j < order.len() && order[j] == m;
            if j < p {
                assert(rest[j] == m);
            } else {
                assert(j != p);
                assert(rest[j - 1] == m);
            }
        }
        assert forall|j: int| 0 <= j < rest.len() implies rest[j] < n - 1 by {
            if j < p {
                assert(rest[j] == order[j] && order[j] != order[p]);
            } else {
                assert(rest[j] == order[j + 1] && order[j + 1] != order[p]);
            }
        }
        assert forall|j: int, k: int| 0 <= j < k < rest.len() implies rest[j] != rest[k] by {
            let jj = if j < p { j } else { j + 1 };
            let kk = if k < p { k } else { k + 1 };
            assert(rest[j] == order[jj] && rest[k] == order[kk]);
        }
        entry_order_keeps_records(init, rest);
        assert(in_order(init, rest) =~= in_order(per_entry, order).remove(p));
        lemma_concat_remove(in_order(per_entry, order), p);
        assert(per_entry =~= init.push(per_entry.last()));
        lemma_concat_push(init, per_entry.last());
        vstd::seq_lib::lemma_multiset_commutative(concat(init), per_entry.last());
    } else {
        assert(in_order(per_entry, order) =~= per_entry);
    }
}

/// The records that reading an archive gives are, as many times each, those
/// of its entries taken one after another in the order the archive lists
/// them: reading the largest entries first changes only their order.
pub proof fn archive_records_as_listed(es: Seq<(Option<u64>, Option<Seq<u8>>)>, out: Seq<Address>)
    requires
        archive_valid(es),
        archive_records(es, out),
    ensures
        exists|per_entry: Seq<Seq<Address>>|
            per_entry.len() == es.len() && (forall|i: int|
                0 <= i < es.len() ==> entry_records(es[i].1->0, #[trigger] per_entry[i]))
                && out.to_multiset() == concat(per_entry).to_multiset(),
{
    let (order, pieces) = choose|order: Seq<usize>, pieces: Seq<Seq<Address>>|
        is_largest_first(entry_sizes(es), order) && records_in_order(es, order, pieces) && out == concat(pieces);
    let n = es.len() as int;
    let per_entry = Seq::new(
        es.len(),
        |i: int| pieces[choose|j: int| 0 <= j < order.len() && order[j] == i],
    );
    assert forall|i: int| 0 <= i < n implies entry_records(es[i].1->0, #[trigger] per_entry[i]) by {
        assert(lists(order, i));
        let j = choose|j: int| 0 <= j < order.len() && order[j] == i;
        assert(entry_records(es[order[j] as int].1->0, pieces[j]));
    }
    assert forall|j: int| 0 <= j < order.len() implies #[trigger] in_order(per_entry, order)[j] == pieces[j] by {
        let m = order[j] as int;
        assert(lists(order, m));
        let k = choose|k: int| 0 <= k < order.len() && order[k] == m;
        if k != j {
            if k < j {
                assert(order[k] != order[j]);
            } else {
                assert(order[j] != order[k]);
            }
        }
    }
    assert(in_order(per_entry, order) =~= pieces);
    assert(lists_each_once(order, n));
    entry_order_keeps_records(per_entry, order);
}

/// The records of an archive with one entry are those of its table: one per
/// row below the header, each made from the cells of its row.
pub proof fn single_entry_records(es: Seq<(Option<u64>, Option<Seq<u8>>)>, out: Seq<Address>)
    requires
        es.len() == 1,
        archive_valid(es),
        archive_records(es, out),
    ensures
        entry_records(es[0].1->0, out),
        entry_table(es[0].1->0)->0.len() > 0 ==> out.len() + 1 == entry_table(es[0].1->0)->0.len()
            && forall|i: int|
            0 <= i < out.len() ==> address_from_cells(
                #[trigger] out[i],
                row_cells(entry_table(es[0].1->0)->0[0], entry_table(es[0].1->0)->0[i + 1]),
            ),
{
    let (order, pieces) = choose|order: Seq<usize>, pieces: Seq<Seq<Address>>|
        is_largest_first(entry_sizes(es), order) && records_in_order(es, order, pieces) && out == concat(pieces);
    assert(order[0] == 0);
    assert(entry_records(es[0].1->0, pieces[0]));
    assert(pieces =~= Seq::<Seq<Address>>::empty().push(pieces[0]));
    lemma_concat_push(Seq::empty(), pieces[0]);
    assert(Seq::<Address>::empty() + pieces[0] =~= pieces[0]);
}

/// One entry that cannot be read into records makes the whole archive fail.
pub proof fn one_bad_entry_fails_all(es: Seq<(Option<u64>, Option<Seq<u8>>)>, i: int)
    requires
        0 <= i < es.len(),
        es[i].1 is None || !entry_valid(es[i].1->0),
    ensures
        !archive_valid(es),
{
}

/// An optional field of a record is absent exactly where its cell is empty,
/// so an absent value is never read as zero or as an empty text.
pub proof fn optional_fields_absent_iff_empty(a: Address, c: Seq<Seq<char>>)
    requires
        c.len() == 19,
        cells_valid(c),
        address_from_cells(a, c),
    ensures
        a.city_part_code is None <==> c[3].len() == 0,
        a.city_part is None <==> c[4].len() == 0,
        a.prague_part_code is None <==> c[5].len() == 0,
        a.prague_part is None <==> c[6].len() == 0,
        a.street_code is None <==> c[9].len() == 0,
        a.street is None <==> c[10].len() == 0,
        a.orientation_number is None <==> c[13].len() == 0,
        a.orientation_number_sign is None <==> c[14].len() == 0,
        a.location_x is None <==> c[16].len() == 0,
        a.location_y is None <==> c[17].len() == 0,
{
}

} // verus!
