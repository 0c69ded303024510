//! The archive: its entries, the order they are read in, and the records of all of them.
use vstd::prelude::*;

use crate::entry::{entry_records, entry_table, entry_valid, parse_entry};
use crate::error::AddressError;
use crate::record::Address;

verus! {

#[verifier::external_type_specification]
#[verifier::external_body]
#[verifier::reject_recursive_types(T)]
pub struct ExCursor<T>(std::io::Cursor<T>);

#[verifier::external_type_specification]
#[verifier::external_body]
#[verifier::reject_recursive_types(R)]
pub struct ExZipArchive<R>(zip::ZipArchive<R>);

#[verifier::external_type_specification]
#[verifier::external_body]
pub struct ExZipError(zip::result::ZipError);

/// An open archive held in memory.
pub type MemoryArchive = zip::ZipArchive<std::io::Cursor<Vec<u8>>>;

/// What `zip` finds in the bytes of an archive: for each entry, in the order
/// of its central directory, the declared uncompressed size and the
/// decompressed contents, each missing where it cannot be read. Nothing where
/// the bytes are no archive.
pub uninterp spec fn zip_entries(bytes: Seq<u8>) -> Option<Seq<(Option<u64>, Option<Seq<u8>>)>>;

/// The entries of an open archive, as in [`zip_entries`].
pub uninterp spec fn archive_entries(a: MemoryArchive) -> Seq<(Option<u64>, Option<Seq<u8>>)>;

/// Relies on `zip::ZipArchive::new`, which reads the central directory of
/// the archive.
#[verifier::external_body]
fn open_archive(bytes: Vec<u8>) -> (r: Result<MemoryArchive, zip::result::ZipError>)
    ensures
        r is Ok <==> zip_entries(bytes@) is Some,
        r is Ok ==> archive_entries(r->Ok_0) == zip_entries(bytes@)->0,
{
    zip::ZipArchive::new(std::io::Cursor::new(bytes))
}

/// Relies on `zip::ZipArchive::len`: the number of entries.
#[verifier::external_body]
fn archive_len(a: &MemoryArchive) -> (r: usize)
    ensures
        r == archive_entries(*a).len(),
{
    a.len()
}

/// Relies on `zip::ZipArchive::by_index_raw` and `ZipFile::size`: the
/// declared uncompressed size of an entry, read without decompressing it.
#[verifier::external_body]
fn entry_size(a: &mut MemoryArchive, i: usize) -> (r: Result<u64, zip::result::ZipError>)
    requires
        i < archive_entries(*old(a)).len(),
    ensures
        archive_entries(*final(a)) == archive_entries(*old(a)),
        r is Ok <==> archive_entries(*old(a))[i as int].0 is Some,
        r is Ok ==> r->Ok_0 == archive_entries(*old(a))[i as int].0->0,
{
    match a.by_index_raw(i) {
        Ok(file) => Ok(file.size()),
        Err(e) => Err(e),
    }
}

/// Relies on `zip::ZipArchive::by_index` and `std::io::Read::read_to_end`:
/// the decompressed contents of an entry.
#[verifier::external_body]
fn entry_bytes(a: &mut MemoryArchive, i: usize) -> (r: Result<Vec<u8>, zip::result::ZipError>)
    requires
        i < archive_entries(*old(a)).len(),
    ensures
        archive_entries(*final(a)) == archive_entries(*old(a)),
        r is Ok <==> archive_entries(*old(a))[i as int].1 is Some,
        r is Ok ==> r->Ok_0@ == archive_entries(*old(a))[i as int].1->0,
{
    let mut file = a.by_index(i)?;
    let mut bytes = Vec::new();
    std::io::Read::read_to_end(&mut file, &mut bytes)?;
    Ok(bytes)
}

/// `order` lists each index below `sizes.len()` once, the largest sizes first.
pub open spec fn is_largest_first(sizes: Seq<u64>, order: Seq<usize>) -> bool {
    &&& order.len() == sizes.len()
    &&& forall|j: int| 0 <= j < order.len() ==> order[j] < sizes.len()
    &&& forall|j: int, k: int| 0 <= j < k < order.len() ==> order[j] != order[k]
    &&& forall|j: int, k: int|
        0 <= j < k < order.len() ==> sizes[order[j] as int] >= sizes[order[k] as int]
    &&& forall|m: int| 0 <= m < sizes.len() ==> #[trigger] lists(order, m)
}

/// `order` holds the index `m`.
pub open spec fn lists(order: Seq<usize>, m: int) -> bool {
    exists|j: int| 0 <= j < order.len() && order[j] == m
}

/// The order in which to read entries of the given sizes: largest first,
/// and among equal sizes in the order they are given.
pub fn largest_first(sizes: &Vec<u64>) -> (order: Vec<usize>)
    ensures
        is_largest_first(sizes@, order@),
{
    let mut order: Vec<usize> = Vec::new();
    let mut i: usize = 0;
    while i < sizes.len()
        invariant
            i <= sizes@.len(),
            order@.len() == i,
            forall|j: int| 0 <= j < order@.len() ==> order@[j] < i,
            forall|j: int, k: int| 0 <= j < k < order@.len() ==> order@[j] != order@[k],
            forall|j: int, k: int|
                0 <= j < k < order@.len() ==> sizes@[order@[j] as int] >= sizes@[order@[k] as int],
            forall|m: int| 0 <= m < i ==> #[trigger] lists(order@, m),
        decreases sizes@.len() - i,
    {
        let s = sizes[i];
        let mut p: usize = 0;
        while p < order.len() && sizes[order[p]] >= s
            invariant
                p <= order@.len(),
                i < sizes@.len(),
                s == sizes@[i as int],
                forall|j: int| 0 <= j < order@.len() ==> order@[j] < i,
                forall|j: int| 0 <= j < p ==> sizes@[order@[j] as int] >= s,
            decreases order@.len() - p,
        {
            p = p + 1;
        }
        let ghost before = order@;
        order.insert(p, i);
        proof {
            assert(order@ == before.insert(p as int, i));
            assert forall|j: int, k: int| 0 <= j < k < order@.len() implies sizes@[order@[j] as int]
                >= sizes@[order@[k] as int] by {
                if p < before.len() {
                    assert(sizes@[before[p as int] as int] < s);
                }
                if k == p {
                    assert(order@[j] == before[j]);
                } else if j == p {
                    assert(order@[k] == before[k - 1]);
                    assert(sizes@[before[p as int] as int] >= sizes@[before[k - 1] as int] || k - 1 == p);
                } else if k < p {
                    assert(order@[j] == before[j] && order@[k] == before[k]);
                } else if j < p {
                    assert(order@[j] == before[j] && order@[k] == before[k - 1]);
                } else {
                    assert(order@[j] == before[j - 1] && order@[k] == before[k - 1]);
                }
            }
            assert forall|m: int| 0 <= m < i + 1 implies #[trigger] lists(order@, m) by {
                if m == i {
                    assert(order@[p as int] == m);
                } else {
                    assert(lists(before, m));
                    let j0 = choose|j: int| 0 <= j < before.len() && before[j] == m;
                    if j0 < p {
                        assert(order@[j0] == m);
                    } else {
                        assert(order@[j0 + 1] == m);
                    }
                }
            }
        }
        i = i + 1;
    }
    order
}

/// The records of a sequence of tables, one table after another.
pub open spec fn concat(s: Seq<Seq<Address>>) -> Seq<Address>
    decreases s.len(),
{
    if s.len() == 0 {
        Seq::empty()
    } else {
        concat(s.drop_last()) + s.last()
    }
}

/// The declared sizes of entries whose sizes could all be read.
pub open spec fn entry_sizes(es: Seq<(Option<u64>, Option<Seq<u8>>)>) -> Seq<u64> {
    es.map_values(|e: (Option<u64>, Option<Seq<u8>>)| e.0->0)
}

/// Every entry's size and contents can be read.
pub open spec fn archive_readable(es: Seq<(Option<u64>, Option<Seq<u8>>)>) -> bool {
    forall|i: int| 0 <= i < es.len() ==> (#[trigger] es[i]).0 is Some && es[i].1 is Some
}

/// Every entry can be read and holds a table whose rows all make records.
pub open spec fn archive_valid(es: Seq<(Option<u64>, Option<Seq<u8>>)>) -> bool {
    archive_readable(es) && forall|i: int| 0 <= i < es.len() ==> entry_valid((#[trigger] es[i]).1->0)
}

/// `pieces` holds the records of each entry, in the order `order` lists them.
pub open spec fn records_in_order(
    es: Seq<(Option<u64>, Option<Seq<u8>>)>,
    order: Seq<usize>,
    pieces: Seq<Seq<Address>>,
) -> bool {
    &&& pieces.len() == order.len()
    &&& forall|j: int| 0 <= j < pieces.len() ==> entry_records(es[order[j] as int].1->0, #[trigger] pieces[j])
}

/// The `q`-th entry in `order` has been read, and `pieces[q]` holds its records.
pub open spec fn entry_done(
    es: Seq<(Option<u64>, Option<Seq<u8>>)>,
    order: Seq<usize>,
    pieces: Seq<Seq<Address>>,
    q: int,
) -> bool {
    &&& es[order[q] as int].1 is Some
    &&& entry_valid(es[order[q] as int].1->0)
    &&& entry_records(es[order[q] as int].1->0, pieces[q])
}

/// `out` holds the records of all entries: those of the largest entry first,
/// each entry's records in the order of its rows.
pub open spec fn archive_records(es: Seq<(Option<u64>, Option<Seq<u8>>)>, out: Seq<Address>) -> bool {
    exists|order: Seq<usize>, pieces: Seq<Seq<Address>>|
        is_largest_first(entry_sizes(es), order) && records_in_order(es, order, pieces) && out == concat(pieces)
}

/// Reads the address records of every entry of a ZIP archive of
/// semicolon-delimited Windows-1250 tables, largest entry first. The first
/// failure ends the work: no records of other entries are returned with it.
pub fn parse_addresses_from_csv(archive: Vec<u8>) -> (r: Result<Vec<Address>, AddressError>)
    ensures
        r is Ok <==> zip_entries(archive@) is Some && archive_valid(zip_entries(archive@)->0),
        r is Ok ==> archive_records(zip_entries(archive@)->0, r->Ok_0@),
        zip_entries(archive@) is None ==> r == Err::<Vec<Address>, AddressError>(AddressError::Zip),
        r == Err::<Vec<Address>, AddressError>(AddressError::Zip) ==> zip_entries(archive@) is None
            || !archive_readable(zip_entries(archive@)->0),
        r matches Err(AddressError::Csv { entry }) ==> entry < zip_entries(archive@)->0.len()
            && entry_table(zip_entries(archive@)->0[entry as int].1->0) is None,
        r matches Err(e) ==> (e is Zip || (e.entry_index() is Some && e.entry_index()->0
            < zip_entries(archive@)->0.len() && !entry_valid(
            zip_entries(archive@)->0[e.entry_index()->0 as int].1->0,
        ))),
{
    let ghost bytes = archive@;
    let mut a = match open_archive(archive) {
        Ok(a) => a,
        Err(_) => return Err(AddressError::Zip),
    };
    let ghost es = zip_entries(bytes)->0;
    let n = archive_len(&a);
    let mut sizes: Vec<u64> = Vec::new();
    let mut i: usize = 0;
    while i < n
        invariant
            archive_entries(a) == es,
            es == zip_entries(bytes)->0,
            zip_entries(bytes) is Some,
            bytes == archive@,
            n == es.len(),
            i <= n,
            sizes@.len() == i,
            forall|q: int| 0 <= q < i ==> (#[trigger] es[q]).0 is Some && sizes@[q] == es[q].0->0,
        decreases n - i,
    {
        match entry_size(&mut a, i) {
            Ok(s) => sizes.push(s),
            Err(_) => {
                assert(es[i as int].0 is None);
                assert(!archive_readable(es));
                return Err(AddressError::Zip);
            },
        }
        i = i + 1;
    }
    assert(sizes@ =~= entry_sizes(es));
    let order = largest_first(&sizes);
    let mut out: Vec<Address> = Vec::new();
    let ghost mut pieces: Seq<Seq<Address>> = Seq::empty();
    let mut j: usize = 0;
    while j < n
        invariant
            archive_entries(a) == es,
            es == zip_entries(bytes)->0,
            zip_entries(bytes) is Some,
            bytes == archive@,
            n == es.len(),
            j <= n,
            forall|q: int| 0 <= q < n ==> (#[trigger] es[q]).0 is Some,
            is_largest_first(entry_sizes(es), order@),
            pieces.len() == j,
            forall|q: int| 0 <= q < j ==> #[trigger] entry_done(es, order@, pieces, q),
            out@ == concat(pieces),
        decreases n - j,
    {
        let e = order[j];
        let bytes_e = match entry_bytes(&mut a, e) {
            Ok(b) => b,
            Err(_) => {
                assert(es[e as int].1 is None);
                assert(!archive_readable(es));
                return Err(AddressError::Zip);
            },
        };
        let slice = bytes_e.as_slice();
        assert(slice@ == es[e as int].1->0);
        let mut recs = match parse_entry(slice, e) {
            Ok(recs) => recs,
            Err(err) => {
                assert(!entry_valid(es[e as int].1->0));
                assert(!archive_valid(es));
                return Err(err);
            },
        };
        let ghost old_pieces = pieces;
        proof {
            pieces = pieces.push(recs@);
            assert(pieces.drop_last() =~= old_pieces);
            assert forall|q: int| 0 <= q < j + 1 implies #[trigger] entry_done(es, order@, pieces, q) by {
                if q < j {
                    assert(entry_done(es, order@, old_pieces, q));
                    assert(old_pieces[q] == pieces[q]);
                }
            }
        }
        out.append(&mut recs);
        j = j + 1;
    }
    proof {
        assert forall|q: int| 0 <= q < n implies (#[trigger] es[q]).1 is Some && entry_valid(es[q].1->0) by {
            assert(lists(order@, q));
            let k = choose|k: int| 0 <= k < order@.len() && order@[k] == q;
            assert(entry_done(es, order@, pieces, k));
            assert(es[order@[k] as int].1 is Some);
        }
        assert forall|q: int| 0 <= q < pieces.len() implies entry_records(
            es[order@[q] as int].1->0,
            #[trigger] pieces[q],
        ) by {
            assert(entry_done(es, order@, pieces, q));
        }
        assert(records_in_order(es, order@, pieces));
    }
    Ok(out)
}

} // verus!
