use vstd::prelude::*;

use crate::deposit::{settlement, storage_cost, DepositError};
use crate::pagination::{page_spec, PageError};
use crate::store::{entry_map, index_after, listing, payloads_after};
use crate::user_info::UserInfo;

verus! {

/// The index and payloads after submissions from `ids[0]`, `ids[1]`, ... in
/// turn, with payloads `infos[0]`, `infos[1]`, ...
pub open spec fn after_submissions(
    index: Seq<Seq<char>>,
    payloads: Seq<UserInfo>,
    ids: Seq<Seq<char>>,
    infos: Seq<UserInfo>,
) -> (Seq<Seq<char>>, Seq<UserInfo>)
    decreases ids.len(),
{
    if ids.len() == 0 {
        (index, payloads)
    } else {
        let (i, p) = after_submissions(index, payloads, ids.drop_last(), infos.drop_last());
        (index_after(i, ids.last()), payloads_after(i, p, ids.last(), infos[ids.len() - 1]))
    }
}

/// The concatenation of the pages `[bounds[0], bounds[1])`,
/// `[bounds[1], bounds[2])`, ... of an index and its payloads.
pub open spec fn pages_listing(index: Seq<Seq<char>>, payloads: Seq<UserInfo>, bounds: Seq<u64>) -> Seq<(Seq<char>, UserInfo)>
    decreases bounds.len(),
{
    if bounds.len() < 2 {
        Seq::empty()
    } else {
        let n = bounds.len() as int;
        pages_listing(index, payloads, bounds.drop_last()) + listing(index, payloads, bounds[n - 2] as int, bounds[n - 1] as int)
    }
}

/// Submitting twice from one identity: the second submission leaves the index
/// as the first left it, and the entry holds the second payload. The index
/// grows by one on the first submission exactly when the identity was unseen.
pub proof fn lemma_upsert_dedup(
    index: Seq<Seq<char>>,
    payloads: Seq<UserInfo>,
    id: Seq<char>,
    p1: UserInfo,
    p2: UserInfo,
)
    requires
        index.len() == payloads.len(),
        index.no_duplicates(),
    ensures
        ({
            let i1 = index_after(index, id);
            let q1 = payloads_after(index, payloads, id, p1);
            let i2 = index_after(i1, id);
            let q2 = payloads_after(i1, q1, id, p2);
            &&& i1.len() == index.len() + (if index.contains(id) { 0int } else { 1int })
            &&& i2 == i1
            &&& entry_map(i2, q2).contains_key(id)
            &&& entry_map(i2, q2)[id] == p2
        }),
{
    let i1 = index_after(index, id);
    if !index.contains(id) {
        assert(i1[index.len() as int] == id);
    }
    assert(i1.contains(id));
}

/// Distinct identities submitted in turn into an empty store: the index is
/// those identities in submission order, and the full page lists each with its
/// payload in that order.
pub proof fn lemma_submission_order(ids: Seq<Seq<char>>, infos: Seq<UserInfo>)
    requires
        ids.no_duplicates(),
        ids.len() == infos.len(),
        ids.len() <= u64::MAX,
    ensures
        after_submissions(Seq::empty(), Seq::empty(), ids, infos) == (ids, infos),
        ids.len() > 0 ==> page_spec(ids.len() as int, Some(0u64), Some(ids.len() as u64)) == Ok::<(int, int), PageError>((0, ids.len() as int)),
        listing(ids, infos, 0, ids.len() as int) == Seq::new(ids.len(), |j: int| (ids[j], infos[j])),
    decreases ids.len(),
{
    if ids.len() > 0 {
        let n = ids.len() - 1;
        let front = ids.drop_last();
        assert(front.no_duplicates());
        lemma_submission_order(front, infos.drop_last());
        assert(!front.contains(ids.last()));
        assert(front.push(ids.last()) =~= ids);
        assert(infos.drop_last().push(infos[n as int]) =~= infos);
    }
    assert(listing(ids, infos, 0, ids.len() as int) =~= Seq::new(ids.len(), |j: int| (ids[j], infos[j])));
}

/// Two adjacent listings join into one.
proof fn lemma_listing_join(index: Seq<Seq<char>>, payloads: Seq<UserInfo>, a: int, b: int, c: int)
    requires
        0 <= a <= b <= c,
    ensures
        listing(index, payloads, a, b) + listing(index, payloads, b, c) == listing(index, payloads, a, c),
{
    assert(listing(index, payloads, a, b) + listing(index, payloads, b, c) =~= listing(index, payloads, a, c));
}

/// Pages over increasing bounds from `0` concatenate into the listing up to the
/// last bound.
proof fn lemma_pages_concat(index: Seq<Seq<char>>, payloads: Seq<UserInfo>, bounds: Seq<u64>)
    requires
        bounds.len() >= 1,
        bounds[0] == 0,
        forall|i: int, j: int| 0 <= i < j < bounds.len() ==> bounds[i] < bounds[j],
    ensures
        pages_listing(index, payloads, bounds) == listing(index, payloads, 0, bounds.last() as int),
    decreases bounds.len(),
{
    if bounds.len() == 1 {
        assert(listing(index, payloads, 0, 0) =~= Seq::empty());
    } else {
        let n = bounds.len() as int;
        let front = bounds.drop_last();
        lemma_pages_concat(index, payloads, front);
        assert(bounds[0] <= bounds[n - 2]);
        lemma_listing_join(index, payloads, 0, bounds[n - 2] as int, bounds[n - 1] as int);
    }
}

/// Paging through a non-empty store over any split of `[0, len)` into
/// consecutive ranges: each range is served as asked, and the pages together
/// list every entry once, in order, as the full page does.
pub proof fn lemma_pages_partition(index: Seq<Seq<char>>, payloads: Seq<UserInfo>, bounds: Seq<u64>)
    requires
        index.len() > 0,
        bounds.len() >= 2,
        bounds[0] == 0,
        bounds.last() == index.len(),
        forall|i: int, j: int| 0 <= i < j < bounds.len() ==> bounds[i] < bounds[j],
    ensures
        forall|i: int|
            0 <= i < bounds.len() - 1 ==> #[trigger] page_spec(index.len() as int, Some(bounds[i]), Some((bounds[i + 1] - bounds[i]) as u64))
                == Ok::<(int, int), PageError>((bounds[i] as int, bounds[i + 1] as int)),
        page_spec(index.len() as int, Some(0u64), None) == Ok::<(int, int), PageError>((0, index.len() as int)),
        pages_listing(index, payloads, bounds) == listing(index, payloads, 0, index.len() as int),
{
    lemma_pages_concat(index, payloads, bounds);
    lemma_pages_each(index.len() as int, bounds);
}

/// Each range between adjacent increasing bounds below `len` is served as asked.
proof fn lemma_pages_each(len: int, bounds: Seq<u64>)
    requires
        bounds.len() >= 2,
        bounds.last() == len,
        forall|i: int, j: int| 0 <= i < j < bounds.len() ==> bounds[i] < bounds[j],
    ensures
        forall|i: int|
            0 <= i < bounds.len() - 1 ==> #[trigger] page_spec(len, Some(bounds[i]), Some((bounds[i + 1] - bounds[i]) as u64))
                == Ok::<(int, int), PageError>((bounds[i] as int, bounds[i + 1] as int)),
{
    let last = bounds.len() - 1;
    assert forall|i: int| 0 <= i < last implies #[trigger] page_spec(len, Some(bounds[i]), Some((bounds[i + 1] - bounds[i]) as u64))
        == Ok::<(int, int), PageError>((bounds[i] as int, bounds[i + 1] as int)) by {
        assert(bounds[i] < bounds[i + 1]);
        if i + 1 < last {
            assert(bounds[i + 1] < bounds[last]);
        }
        lemma_page_of_range(len, bounds[i], bounds[i + 1]);
    }
}

/// A start below the end and a limit that reaches `e` give the range `[s, e)`.
proof fn lemma_page_of_range(len: int, s: u64, e: u64)
    requires
        s < e <= len,
    ensures
        page_spec(len, Some(s), Some((e - s) as u64)) == Ok::<(int, int), PageError>((s as int, e as int)),
{
}

/// A page that starts at the end of a non-empty store is out of range; an
/// empty store gives an empty page whatever is asked.
pub proof fn lemma_page_boundaries(len: u64, start: Option<u64>, limit: Option<u64>)
    ensures
        len > 0 ==> page_spec(len as int, Some(len), limit) == Err::<(int, int), PageError>(PageError::OutOfRange),
        page_spec(0, start, limit) == Ok::<(int, int), PageError>((0, 0)),
{
}

/// A limit past the end is clamped: the page from `0` with a limit of
/// `len + 100` holds all `len` entries.
pub proof fn lemma_limit_clamp(len: u64)
    requires
        len + 100 <= u64::MAX,
    ensures
        page_spec(len as int, Some(0u64), Some((len + 100) as u64)) == Ok::<(int, int), PageError>((0, len as int)),
{
}

/// A deposit of the cost plus `surplus` is refunded exactly `surplus`; a
/// deposit below the cost is refused with the cost as the required amount.
pub proof fn lemma_refund_exact(bytes_written: u64, price_per_byte: u128, attached_deposit: u128)
    requires
        storage_cost(bytes_written as int, price_per_byte as int) <= u128::MAX,
    ensures
        ({
            let cost = storage_cost(bytes_written as int, price_per_byte as int);
            &&& cost <= attached_deposit ==> settlement(bytes_written as int, price_per_byte as int, attached_deposit as int)
                == Ok::<u128, DepositError>((attached_deposit - cost) as u128)
            &&& attached_deposit < cost ==> settlement(bytes_written as int, price_per_byte as int, attached_deposit as int)
                == Err::<u128, DepositError>(DepositError::InsufficientDeposit { required: cost as u128 })
        }),
{
}

} // verus!
